//! What the operations are for, stated over the text and its lines: which
//! lines a justify refills, how it keeps the words and fills lines of 72
//! bytes, where word moves, Up/Down and paging land, how soft wrap keeps a
//! word on one row and a tab reaches the next multiple of 4, how scrolling
//! keeps the cursor on screen, how the browser orders its entries, which
//! action each key of the help stands for, and that a shown line number
//! reads back at the go-to-line prompt.
use vstd::prelude::*;
use crate::editor::{
    has_non_ws, is_word_char, justify_range, rows_of_width, wrap_top, wrapped_row, next_word_start, para_end, para_start, prev_word_start,
    skip_backward, skip_forward, Editor,
};
use vstd::arithmetic::div_mod::{lemma_fundamental_div_mod, lemma_mod_pos_bound};
use crate::browser::{entry_key, first_after, insert_entry, sort_entries, EntryView};
use crate::config::{lemma_lex_total, lemma_lex_transitive, lex_le, lex_lt};
use crate::justify::{
    fill, justified, lemma_word_spans_are_words, lemma_word_spans_ok, spans_are_words, spans_ok,
    utf8_len, word_spans,
};
use crate::input::KeyCode;
use crate::keys::{char_action, key_action, Action};
use crate::render::{emit, line_render, render_state, word_len_from, LineLayout, RenderState};
use crate::text::{char_is_whitespace, decimal, digit_char, digits_value, is_digit, parse_usize, trim};
use crate::ui::no_breaks;
use crate::wrap::{place_cells, wrap_state, word_width_from};
use crate::lines::{display_width, lemma_line_count_bound, lemma_line_facts, line_len_of, line_count, line_of, line_start, line_text};

verus! {

/// The first line of the paragraph: going up from `y` over non-blank lines.
proof fn para_start_facts(t: Seq<char>, y: nat)
    ensures
        para_start(t, y) <= y,
        para_start(t, y) == 0 || !has_non_ws(line_text(t, (para_start(t, y) - 1) as nat)),
        forall|z: nat| para_start(t, y) <= z < y ==> has_non_ws(#[trigger] line_text(t, z)),
    decreases y,
{
    if y > 0 && has_non_ws(line_text(t, (y - 1) as nat)) {
        para_start_facts(t, (y - 1) as nat);
    }
}

/// The line after the paragraph: going down from `y` over non-blank lines.
proof fn para_end_facts(t: Seq<char>, y: nat)
    requires
        y <= line_count(t),
    ensures
        y <= para_end(t, y) <= line_count(t),
        para_end(t, y) == line_count(t) || !has_non_ws(line_text(t, para_end(t, y))),
        forall|z: nat| y <= z < para_end(t, y) ==> has_non_ws(#[trigger] line_text(t, z)),
    decreases line_count(t) - y,
{
    if y < line_count(t) && has_non_ws(line_text(t, y)) {
        para_end_facts(t, y + 1);
    }
}

/// Lines joined by non-blank lines belong to one paragraph.
proof fn same_paragraph(t: Seq<char>, z: nat, y: nat)
    requires
        z <= y,
        forall|k: nat| z <= k < y ==> has_non_ws(#[trigger] line_text(t, k)),
    ensures
        para_start(t, z) == para_start(t, y),
        para_end(t, z) == para_end(t, y),
    decreases y - z,
{
    if z < y {
        assert(has_non_ws(line_text(t, z)));
        assert(has_non_ws(line_text(t, (y - 1) as nat)));
        assert(z < line_count(t)) by {
            if z >= line_count(t) {
                assert(line_text(t, z).len() == 0);
            }
        }
        same_paragraph(t, z + 1, y);
        same_paragraph(t, z, (y - 1) as nat);
    }
}

/// Ctrl+J on line `y` replaces whole lines: from the first line of the run
/// of non-blank lines that reaches down to `y` (the line above it is blank,
/// or it is the first line) to the end of the run of non-blank lines from
/// `y` on (a blank line, or the end of the text).
pub proof fn lemma_justify_takes_the_paragraph(t: Seq<char>, y: nat)
    requires
        y < line_count(t),
    ensures
        exists|ps: nat, pe: nat|
            #![trigger line_start(t, ps), line_start(t, pe)]
            {
                &&& justify_range(t, y) == (line_start(t, ps), line_start(t, pe))
                &&& ps <= y <= pe <= line_count(t)
                &&& ps == 0 || !has_non_ws(line_text(t, (ps - 1) as nat))
                &&& forall|z: nat| ps <= z < y ==> has_non_ws(#[trigger] line_text(t, z))
                &&& forall|z: nat| y <= z < pe ==> has_non_ws(#[trigger] line_text(t, z))
                &&& pe == line_count(t) || !has_non_ws(line_text(t, pe))
            },
{
    para_start_facts(t, y);
    para_end_facts(t, y);
    let ps = para_start(t, y);
    let pe = para_end(t, y);
    assert(justify_range(t, y) == (line_start(t, ps), line_start(t, pe)));
}

/// Ctrl+J refills the same lines from any line of a paragraph: when the
/// lines from `z` down to just above `y` are all non-blank, justifying at
/// `z` and at `y` replace the same range.
pub proof fn lemma_justify_same_from_any_line(t: Seq<char>, z: nat, y: nat)
    requires
        z <= y,
        forall|k: nat| z <= k < y ==> has_non_ws(#[trigger] line_text(t, k)),
    ensures
        justify_range(t, z) == justify_range(t, y),
{
    same_paragraph(t, z, y);
}

/// A word begins at `k`: a word char after a char that is not one.
pub open spec fn word_begins_at(t: Seq<char>, k: int) -> bool {
    0 < k < t.len() && is_word_char(t[k]) && !is_word_char(t[k - 1])
}

/// Going forward from `i` over chars that are (or are not) word chars.
proof fn skip_forward_facts(t: Seq<char>, i: nat, word: bool)
    requires
        i <= t.len(),
    ensures
        i <= skip_forward(t, i, word) <= t.len(),
        skip_forward(t, i, word) < t.len() ==> is_word_char(t[skip_forward(t, i, word) as int])
            != word,
        forall|k: int| i <= k < skip_forward(t, i, word) ==> is_word_char(#[trigger] t[k]) == word,
    decreases t.len() - i,
{
    if i < t.len() && is_word_char(t[i as int]) == word {
        skip_forward_facts(t, i + 1, word);
    }
}

/// Going back from `i` over chars that are (or are not) word chars.
proof fn skip_backward_facts(t: Seq<char>, i: nat, word: bool)
    requires
        i < t.len(),
    ensures
        skip_backward(t, i, word) <= i,
        skip_backward(t, i, word) > 0 ==> is_word_char(t[skip_backward(t, i, word) as int])
            != word,
        forall|k: int| skip_backward(t, i, word) < k <= i ==> is_word_char(#[trigger] t[k]) == word,
    decreases i,
{
    if i > 0 && is_word_char(t[i as int]) == word {
        skip_backward_facts(t, (i - 1) as nat, word);
    }
}

/// The cursor placed at index `i` stands at index `i`.
proof fn placed_index(e: Editor, i: nat)
    requires
        i <= e.text().len(),
        e.placed_at(i),
    ensures
        e.cursor_index() == i,
{
    lemma_line_facts(e.text());
}

/// Meta+F (or Ctrl+Right) from a char of the text moves the cursor forward
/// to the next place where a word begins, across spaces, punctuation and
/// line breaks alike, or to the end of the text when no word follows; no
/// word begins in between.
pub proof fn lemma_word_right_lands_on_the_next_word(pre: Editor, post: Editor)
    requires
        pre.wf(),
        pre.cursor_index() < pre.text().len(),
        Editor::moved_word_right(pre, post),
    ensures
        post.text() == pre.text(),
        pre.cursor_index() < post.cursor_index() <= pre.text().len(),
        post.cursor_index() < pre.text().len() ==> word_begins_at(
            pre.text(),
            post.cursor_index() as int,
        ),
        forall|k: int|
            pre.cursor_index() < k < post.cursor_index() ==> !#[trigger] word_begins_at(
                pre.text(),
                k,
            ),
{
    let t = pre.text();
    let i = pre.cursor_index();
    let r = next_word_start(t, i);
    if is_word_char(t[i as int]) {
        skip_forward_facts(t, i, true);
        let j = skip_forward(t, i, true);
        skip_forward_facts(t, j, false);
        assert(i < j);
        if r < t.len() {
            assert(r > j);
        }
        assert forall|k: int| i < k < r implies !#[trigger] word_begins_at(t, k) by {
            if k < j {
                assert(is_word_char(t[k - 1]));
            } else {
                assert(!is_word_char(t[k]));
            }
        }
    } else {
        skip_forward_facts(t, i, false);
        assert forall|k: int| i < k < r implies !#[trigger] word_begins_at(t, k) by {
            assert(!is_word_char(t[k]));
        }
    }
    assert(post.text() == t);
    placed_index(post, r);
}

/// Meta+B (or Ctrl+Left) moves the cursor back to the start of the word
/// before it (the cursor's own word if it is inside one), across spaces,
/// punctuation and line breaks alike; no word begins in between.  With no
/// word char before the cursor it goes to the start of the text, or to
/// the second char when the first is not a word char.
pub proof fn lemma_word_left_lands_on_the_word_before(pre: Editor, post: Editor)
    requires
        pre.wf(),
        pre.cursor_index() > 0,
        Editor::moved_word_left(pre, post),
    ensures
        post.text() == pre.text(),
        post.cursor_index() <= pre.cursor_index(),
        post.cursor_index() < pre.cursor_index() || (pre.cursor_index() == 1
            && !is_word_char(pre.text()[0])),
        forall|k: int|
            post.cursor_index() < k < pre.cursor_index() ==> !#[trigger] word_begins_at(
                pre.text(),
                k,
            ),
        (exists|k: int| 0 <= k < pre.cursor_index() && is_word_char(#[trigger] pre.text()[k]))
            ==> (word_begins_at(pre.text(), post.cursor_index() as int) || post.cursor_index()
            == 0 && is_word_char(pre.text()[0])),
        !(exists|k: int| 0 <= k < pre.cursor_index() && is_word_char(#[trigger] pre.text()[k]))
            ==> post.cursor_index() == (if is_word_char(pre.text()[0]) {
            0nat
        } else {
            1nat
        }),
{
    let t = pre.text();
    let i = pre.cursor_index();
    let j = skip_backward(t, (i - 1) as nat, false);
    skip_backward_facts(t, (i - 1) as nat, false);
    skip_backward_facts(t, j, true);
    let k0 = skip_backward(t, j, true);
    let r = prev_word_start(t, i);
    if exists|k: int| 0 <= k < i && is_word_char(#[trigger] t[k]) {
        let w = choose|k: int| 0 <= k < i && is_word_char(#[trigger] t[k]);
        if j == 0 && !is_word_char(t[0]) {
            assert(is_word_char(t[w]));
            assert(false);
        }
        assert(is_word_char(t[j as int]));
    }
    assert forall|k: int| r < k < i implies !#[trigger] word_begins_at(t, k) by {
        if k > j {
            assert(!is_word_char(t[k]));
        } else {
            assert(is_word_char(t[k - 1]));
        }
    }
    assert(post.text() == t);
    placed_index(post, r);
}

/// Each key the help lists stands for the action the help names, and keys
/// the help lists together stand for the same action: Ctrl+P and Up, Ctrl+N
/// and Down, Ctrl+B and Left, Ctrl+F and Right, Ctrl+Y, F7 and Page Up,
/// Ctrl+V, F8 and Page Down, Ctrl+K and F9, Ctrl+U and F10, Ctrl+D and
/// Delete, Ctrl+J and F4, Ctrl+I and Tab, Ctrl+^ and Meta+A, Ctrl+W and F6,
/// Ctrl+O and F3, Ctrl+R and F5, Ctrl+G and F1, Ctrl+X and F2, Ctrl+C and
/// F11, Ctrl+T and F12, Meta+F and Ctrl+Right, Meta+B and Ctrl+Left.
pub proof fn lemma_keys_as_the_help_lists_them()
    ensures
        key_action(KeyCode::Char('p'), true, false) == Action::Up && key_action(KeyCode::Up, false, false) == Action::Up,
        key_action(KeyCode::Char('n'), true, false) == Action::Down && key_action(KeyCode::Down, false, false) == Action::Down,
        key_action(KeyCode::Char('b'), true, false) == Action::Left && key_action(KeyCode::Left, false, false) == Action::Left,
        key_action(KeyCode::Char('f'), true, false) == Action::Right && key_action(KeyCode::Right, false, false) == Action::Right,
        key_action(KeyCode::Char('a'), true, false) == Action::LineStart,
        key_action(KeyCode::Char('e'), true, false) == Action::LineEnd,
        key_action(KeyCode::Char('y'), true, false) == Action::PageUp && key_action(KeyCode::F(7), false, false) == Action::PageUp && key_action(KeyCode::PageUp, false, false) == Action::PageUp,
        key_action(KeyCode::Char('v'), true, false) == Action::PageDown && key_action(KeyCode::F(8), false, false) == Action::PageDown && key_action(KeyCode::PageDown, false, false) == Action::PageDown,
        key_action(KeyCode::Char('k'), true, false) == Action::Cut && key_action(KeyCode::F(9), false, false) == Action::Cut,
        key_action(KeyCode::Char('u'), true, false) == Action::PasteOrUnjustify && key_action(KeyCode::F(10), false, false) == Action::PasteOrUnjustify,
        key_action(KeyCode::Char('d'), true, false) == Action::DeleteChar && key_action(KeyCode::Delete, false, false) == Action::DeleteChar,
        key_action(KeyCode::Char('j'), true, false) == Action::Justify && key_action(KeyCode::F(4), false, false) == Action::Justify,
        key_action(KeyCode::Char('i'), true, false) == Action::Tab && key_action(KeyCode::Tab, false, false) == Action::Tab,
        key_action(KeyCode::Char('^'), true, false) == Action::ToggleMark && key_action(KeyCode::Char('a'), false, true) == Action::ToggleMark,
        key_action(KeyCode::Char('w'), true, false) == Action::WhereIs && key_action(KeyCode::F(6), false, false) == Action::WhereIs,
        key_action(KeyCode::Char('\\'), true, false) == Action::Replace,
        key_action(KeyCode::Char('o'), true, false) == Action::Save && key_action(KeyCode::F(3), false, false) == Action::Save,
        key_action(KeyCode::Char('r'), true, false) == Action::ReadFile && key_action(KeyCode::F(5), false, false) == Action::ReadFile,
        key_action(KeyCode::Char('g'), true, false) == Action::ShowHelp && key_action(KeyCode::F(1), false, false) == Action::ShowHelp,
        key_action(KeyCode::Char('x'), true, false) == Action::Exit && key_action(KeyCode::F(2), false, false) == Action::Exit,
        key_action(KeyCode::Char('c'), true, false) == Action::CurPos && key_action(KeyCode::F(11), false, false) == Action::CurPos,
        key_action(KeyCode::Char('t'), true, false) == Action::SpellCheck && key_action(KeyCode::F(12), false, false) == Action::SpellCheck,
        key_action(KeyCode::Char('l'), true, false) == Action::GoToLine,
        key_action(KeyCode::Char('t'), false, true) == Action::CycleTheme,
        key_action(KeyCode::Char('l'), false, true) == Action::ToggleLineNumbers,
        key_action(KeyCode::Char('s'), false, true) == Action::ToggleSoftWrap,
        key_action(KeyCode::Char('f'), false, true) == Action::WordRight && key_action(KeyCode::Right, true, false) == Action::WordRight,
        key_action(KeyCode::Char('b'), false, true) == Action::WordLeft && key_action(KeyCode::Left, true, false) == Action::WordLeft,
{
    reveal(char_action);
}

/// Ctrl+F (like Right) moves the cursor one char forward, unless it is at
/// the end of the text; the text stays.
pub proof fn lemma_ctrl_f_moves_forward_a_char(pre: Editor, post: Editor, rows: u16)
    requires
        pre.wf(),
        Editor::after_action(pre, post, key_action(KeyCode::Char('f'), true, false), rows),
    ensures
        post.text() == pre.text(),
        post.cursor_index() == if pre.cursor_index() < pre.text().len() {
            pre.cursor_index() + 1
        } else {
            pre.cursor_index()
        },
{
    lemma_keys_as_the_help_lists_them();
    reveal(Editor::after_action);
    assert(Editor::moved_right(pre, post));
    if pre.cursor_index() < pre.text().len() {
        placed_index(post, pre.cursor_index() + 1);
    }
}

/// Ctrl+B (like Left) moves the cursor one char back, unless it is at the
/// start of the text; the text stays.
pub proof fn lemma_ctrl_b_moves_back_a_char(pre: Editor, post: Editor, rows: u16)
    requires
        pre.wf(),
        Editor::after_action(pre, post, key_action(KeyCode::Char('b'), true, false), rows),
    ensures
        post.text() == pre.text(),
        post.cursor_index() == if pre.cursor_index() > 0 {
            (pre.cursor_index() - 1) as nat
        } else {
            pre.cursor_index()
        },
{
    lemma_keys_as_the_help_lists_them();
    reveal(Editor::after_action);
    assert(Editor::moved_left(pre, post));
    if pre.cursor_index() > 0 {
        lemma_line_facts(pre.text());
        placed_index(post, (pre.cursor_index() - 1) as nat);
    }
}

/// A line `w` display columns wide, on rows `avail` columns wide, takes the
/// fewest rows that hold its columns, and at least one even when it is
/// empty.
pub proof fn lemma_rows_hold_the_line(w: nat, avail: nat)
    requires
        avail >= 1,
    ensures
        rows_of_width(w, avail) >= 1,
        w <= rows_of_width(w, avail) * avail,
        rows_of_width(w, avail) == 1 || (rows_of_width(w, avail) - 1) * avail < w,
{
    if w > 0 {
        let x = (w - 1) as int;
        let a = avail as int;
        lemma_fundamental_div_mod(x, a);
        lemma_mod_pos_bound(x, a);
        let q = x / a;
        let m = x % a;
        assert(q >= 0) by (nonlinear_arith)
            requires
                x >= 0,
                a >= 1,
                q == x / a,
        ;
        assert(rows_of_width(w, avail) == q + 1);
        assert(w <= (q + 1) * a && (q + 1 == 1 || q * a < w)) by (nonlinear_arith)
            requires
                x == a * q + m,
                0 <= m < a,
                q >= 0,
                w == x + 1,
        ;
    }
}

/// The screen rows that lines `from..to` take with soft wrap, on rows
/// `avail` columns wide.
pub open spec fn rows_of_lines(t: Seq<char>, from: nat, to: nat, avail: nat) -> nat
    decreases to,
{
    if to <= from {
        0
    } else {
        rows_of_lines(t, from, (to - 1) as nat, avail) + rows_of_width(
            display_width(line_text(t, (to - 1) as nat), true),
            avail,
        )
    }
}

/// Each line takes at least one row.
proof fn rows_of_lines_at_least(t: Seq<char>, from: nat, to: nat, avail: nat)
    requires
        avail >= 1,
        from <= to,
    ensures
        rows_of_lines(t, from, to, avail) >= to - from,
    decreases to,
{
    if from < to {
        rows_of_lines_at_least(t, from, (to - 1) as nat, avail);
        lemma_rows_hold_the_line(display_width(line_text(t, (to - 1) as nat), true), avail);
    }
}

/// Fewer lines take no more rows.
proof fn rows_of_lines_mono(t: Seq<char>, a: nat, b: nat, to: nat, avail: nat)
    requires
        a <= b,
    ensures
        rows_of_lines(t, b, to, avail) <= rows_of_lines(t, a, to, avail),
    decreases to,
{
    if b < to {
        rows_of_lines_mono(t, a, b, (to - 1) as nat, avail);
    } else if a < to {
        assert(rows_of_lines(t, b, to, avail) == 0);
    }
}

/// The top line that soft-wrapped scrolling computes: the lines from it to
/// the cursor's line, with `used` rows more, fit in `visible` rows, and one
/// line more would not.
proof fn wrap_top_facts(t: Seq<char>, y: nat, used: nat, visible: nat, avail: nat)
    ensures
        wrap_top(t, y, used, visible, avail) <= y,
        wrap_top(t, y, used, visible, avail) == y || rows_of_lines(
            t,
            wrap_top(t, y, used, visible, avail),
            y,
            avail,
        ) + used < visible,
        wrap_top(t, y, used, visible, avail) == 0 || rows_of_lines(
            t,
            (wrap_top(t, y, used, visible, avail) - 1) as nat,
            y,
            avail,
        ) + used >= visible,
    decreases y,
{
    if y > 0 {
        let r = rows_of_width(display_width(line_text(t, (y - 1) as nat), true), avail);
        assert(rows_of_lines(t, (y - 1) as nat, (y - 1) as nat, avail) == 0);
        assert(rows_of_lines(t, (y - 1) as nat, y, avail) == r);
        if used + r < visible {
            wrap_top_facts(t, (y - 1) as nat, used + r, visible, avail);
            let top = wrap_top(t, y, used, visible, avail);
            assert(rows_of_lines(t, top, y, avail) == rows_of_lines(t, top, (y - 1) as nat, avail)
                + r);
            if top > 0 {
                assert(rows_of_lines(t, (top - 1) as nat, y, avail) == rows_of_lines(
                    t,
                    (top - 1) as nat,
                    (y - 1) as nat,
                    avail,
                ) + r);
            }
        }
    }
}

/// With soft wrap and at least one text row on screen, scrolling keeps the
/// cursor on screen: the top line is at or above the cursor's line, and
/// the rows the lines from the top line to the cursor's take (each at
/// least one, empty or not), plus the cursor's row within its own line,
/// are fewer than the visible rows, unless the cursor's line is the top
/// one.  The view does not move when the cursor is already on screen, and
/// when it moves down it moves no further than needed; a cursor above the
/// view brings its line to the top.
pub proof fn lemma_soft_wrap_scroll_shows_the_cursor(e: Editor, cols: u16, rows: u16)
    requires
        e.soft_wrap,
        rows >= 5,
    ensures
        ({
            let t = e.text();
            let y = e.cursor_y as nat;
            let avail = e.available_width(cols as nat);
            let visible = (rows - 4) as nat;
            let used = e.visual_cursor_x() / avail;
            let r = e.scrolled(cols, rows).0;
            &&& e.scrolled(cols, rows).1 == 0
            &&& r <= y
            &&& rows_of_lines(t, r, y, avail) >= y - r
            &&& r == y || rows_of_lines(t, r, y, avail) + used < visible
            &&& y < e.row_offset ==> r == y
            &&& y >= e.row_offset && r > e.row_offset ==> rows_of_lines(
                t,
                (r - 1) as nat,
                y,
                avail,
            ) + used >= visible
            &&& y >= e.row_offset && (e.row_offset == y || rows_of_lines(
                t,
                e.row_offset as nat,
                y,
                avail,
            ) + used < visible) ==> r == e.row_offset
        }),
{
    let t = e.text();
    let y = e.cursor_y as nat;
    let avail = e.available_width(cols as nat);
    let visible = (rows - 4) as nat;
    let used = e.visual_cursor_x() / avail;
    let r0 = e.row_offset as nat;
    let top = wrap_top(t, y, used, visible, avail);
    wrap_top_facts(t, y, used, visible, avail);
    let r = wrapped_row(y, r0, top);
    assert(e.scrolled(cols, rows).0 == r);
    rows_of_lines_at_least(t, r, y, avail);
    if y >= r0 {
        if r0 < top {
            rows_of_lines_mono(t, r0, (top - 1) as nat, y, avail);
        } else if top < y {
            rows_of_lines_mono(t, top, r0, y, avail);
        }
    }
}

/// A line break char.
pub open spec fn is_break(c: char) -> bool {
    c == '\n' || c == '\r'
}

/// Filtering keeps a sequence whose chars all pass.
proof fn filter_keeps_all(s: Seq<char>, pred: spec_fn(char) -> bool)
    requires
        forall|j: int| 0 <= j < s.len() ==> pred(#[trigger] s[j]),
    ensures
        s.filter(pred) == s,
    decreases s.len(),
{
    reveal(Seq::filter);
    if s.len() > 0 {
        filter_keeps_all(s.drop_last(), pred);
        assert(s.drop_last().push(s.last()) =~= s);
    }
}

/// Filtering drops a sequence whose chars all fail.
proof fn filter_drops_all(s: Seq<char>, pred: spec_fn(char) -> bool)
    requires
        forall|j: int| 0 <= j < s.len() ==> !pred(#[trigger] s[j]),
    ensures
        s.filter(pred) == Seq::<char>::empty(),
    decreases s.len(),
{
    reveal(Seq::filter);
    if s.len() > 0 {
        filter_drops_all(s.drop_last(), pred);
    }
}

/// A line's chars without its break are the chars before the break.
proof fn no_breaks_of_line(text: Seq<char>, m: nat)
    requires
        m <= text.len(),
        forall|j: int| 0 <= j < m ==> !is_break(#[trigger] text[j]),
        forall|j: int| m <= j < text.len() ==> is_break(#[trigger] text[j]),
    ensures
        no_breaks(text) == text.take(m as int),
{
    let pred = |c: char| c != '\n' && c != '\r';
    let a = text.take(m as int);
    let b = text.skip(m as int);
    assert(text =~= a + b);
    Seq::filter_distributes_over_add(a, b, pred);
    filter_keeps_all(a, pred);
    assert forall|j: int| 0 <= j < b.len() implies !pred(#[trigger] b[j]) by {
        assert(b[j] == text[m + j]);
    }
    filter_drops_all(b, pred);
    assert(no_breaks(text) == text.filter(pred));
    assert(a + Seq::<char>::empty() =~= a);
}

/// The word from `j` on (up to `e`) is `e - j` chars long.
proof fn word_len_of_word(lc: Seq<char>, j: int, e: int)
    requires
        0 <= j <= e <= lc.len(),
        forall|k: int| j <= k < e ==> !char_is_whitespace(#[trigger] lc[k]),
        e == lc.len() || char_is_whitespace(lc[e]),
    ensures
        word_len_from(lc, j) == e - j,
    decreases e - j,
{
    if j < e {
        word_len_of_word(lc, j + 1, e);
    }
}

/// Emitting only adds cells after those there were.
proof fn emit_keeps_cells(p: LineLayout, st: RenderState, n: nat, ch: char, style: usize, hl: bool)
    ensures
        emit(p, st, n, ch, style, hl).cells.len() >= st.cells.len(),
        forall|q: int|
            0 <= q < st.cells.len() ==> #[trigger] emit(p, st, n, ch, style, hl).cells[q]
                == st.cells[q],
    decreases n,
{
    if n > 0 {
        let shown = if ch == '\t' {
            ' '
        } else {
            ch
        };
        let next = if p.soft_wrap {
            let (row, printed) = if st.printed >= p.avail {
                (st.row + 1, 0nat)
            } else {
                (st.row, st.printed)
            };
            RenderState {
                printed: printed + 1,
                visual_x: st.visual_x + 1,
                row,
                cells: st.cells.push((row, shown, style, hl)),
            }
        } else if st.visual_x >= p.col_offset && st.printed < p.avail {
            RenderState {
                printed: st.printed + 1,
                visual_x: st.visual_x + 1,
                row: st.row,
                cells: st.cells.push((st.row, shown, style, hl)),
            }
        } else {
            RenderState { visual_x: st.visual_x + 1, ..st }
        };
        emit_keeps_cells(p, next, (n - 1) as nat, ch, style, hl);
    }
}

/// Laying out more of the line only adds cells after those there were.
proof fn render_keeps_cells(p: LineLayout, i: nat, j: nat)
    requires
        i <= j <= p.text.len(),
    ensures
        render_state(p, j).cells.len() >= render_state(p, i).cells.len(),
        forall|q: int|
            0 <= q < render_state(p, i).cells.len() ==> #[trigger] render_state(p, j).cells[q]
                == render_state(p, i).cells[q],
    decreases j,
{
    if i < j {
        render_keeps_cells(p, i, (j - 1) as nat);
        let k = (j - 1) as nat;
        let st = render_state(p, k);
        let ch = p.text[k as int];
        let lc = no_breaks(p.text);
        if !(ch == '\n' || ch == '\r') && !(p.soft_wrap && (st.printed == 0 || st.printed
            >= p.avail) && k > 0 && char_is_whitespace(ch)) {
            let starts_word = k > 0 && k - 1 < lc.len() && char_is_whitespace(lc[k - 1])
                && !char_is_whitespace(ch);
            let printed = if p.soft_wrap && st.printed > 0 && st.printed < p.avail && starts_word
                && st.printed + word_len_from(lc, k as int) > p.avail {
                p.avail
            } else {
                st.printed
            };
            let n: nat = if ch == '\t' {
                (4 - st.visual_x % 4) as nat
            } else {
                1
            };
            let style = if k < p.styles.len() {
                p.styles[k as int]
            } else {
                0
            };
            emit_keeps_cells(p, RenderState { printed, ..st }, n, ch, style, is_highlighted_at(p, k));
        }
    }
}

/// Whether char `k` of the line is highlighted (see `is_highlighted`).
spec fn is_highlighted_at(p: LineLayout, k: nat) -> bool {
    crate::render::is_highlighted(p, k)
}

/// One char of a word, laid out with soft wrap: it goes in one cell, on
/// the current row while there is room, else at the start of the next.
proof fn word_char_step(p: LineLayout, k: nat, pr: nat)
    requires
        p.soft_wrap,
        k < p.text.len(),
        !char_is_whitespace(p.text[k as int]),
        pr == (if render_state(p, k).printed > 0 && render_state(p, k).printed < p.avail && k > 0
            && k - 1 < no_breaks(p.text).len() && char_is_whitespace(no_breaks(p.text)[k - 1])
            && render_state(p, k).printed + word_len_from(no_breaks(p.text), k as int) > p.avail {
            p.avail
        } else {
            render_state(p, k).printed
        }),
    ensures
        ({
            let st = render_state(p, k);
            let nx = render_state(p, k + 1);
            let (row, printed) = if pr >= p.avail {
                (st.row + 1, 0nat)
            } else {
                (st.row, pr)
            };
            &&& nx.row == row
            &&& nx.printed == printed + 1
            &&& nx.cells == st.cells.push((row, p.text[k as int], nx.cells.last().2, nx.cells.last().3))
        }),
{
    let ch = p.text[k as int];
    assert(char_is_whitespace('\t') && char_is_whitespace('\n') && char_is_whitespace('\r'));
    assert(ch != '\n' && ch != '\r' && ch != '\t');
    assert((k + 1) as nat - 1 == k);
    reveal_with_fuel(emit, 2);
}

/// The chars of a word after its first stay on its first char's row.
proof fn word_rest(p: LineLayout, s: nat, e: nat, a: nat, row: nat, k: nat)
    requires
        p.soft_wrap,
        e <= p.text.len(),
        s + 1 <= k <= e,
        forall|j: int| s <= j < e ==> !char_is_whitespace(#[trigger] p.text[j]),
        forall|j: int| 0 <= j < e ==> no_breaks(p.text)[j] == p.text[j],
        e <= no_breaks(p.text).len(),
        render_state(p, k).printed + (e - k) <= p.avail,
        render_state(p, k).row == row,
        render_state(p, k).cells.len() == a + (k - s),
        forall|q: int|
            a <= q < a + (k - s) ==> (#[trigger] render_state(p, k).cells[q]).0 == row
                && render_state(p, k).cells[q].1 == p.text[s + (q - a)],
    ensures
        render_state(p, e).row == row,
        render_state(p, e).cells.len() == a + (e - s),
        forall|q: int|
            a <= q < a + (e - s) ==> (#[trigger] render_state(p, e).cells[q]).0 == row
                && render_state(p, e).cells[q].1 == p.text[s + (q - a)],
    decreases e - k,
{
    if k < e {
        let lc = no_breaks(p.text);
        assert(lc[k - 1] == p.text[k - 1]);
        assert(!char_is_whitespace(p.text[k - 1]));
        word_char_step(p, k, render_state(p, k).printed);
        let nx = render_state(p, k + 1);
        assert forall|q: int| a <= q < a + (k + 1 - s) implies (#[trigger] nx.cells[q]).0 == row
            && nx.cells[q].1 == p.text[s + (q - a)] by {
            if q < a + (k - s) {
                assert(nx.cells[q] == render_state(p, k).cells[q]);
            }
        }
        word_rest(p, s, e, a, row, k + 1);
    }
}

/// With soft wrap, a word (a longest run of non-whitespace chars) no wider
/// than the row is laid out on one row: its chars get consecutive cells,
/// all on the same row.
pub proof fn lemma_soft_wrap_keeps_a_word_on_one_row(p: LineLayout, m: nat, s: nat, e: nat)
    requires
        p.soft_wrap,
        p.avail >= 1,
        m <= p.text.len(),
        forall|j: int| 0 <= j < m ==> !is_break(#[trigger] p.text[j]),
        forall|j: int| m <= j < p.text.len() ==> is_break(#[trigger] p.text[j]),
        s < e <= m,
        forall|j: int| s <= j < e ==> !char_is_whitespace(#[trigger] p.text[j]),
        s == 0 || char_is_whitespace(p.text[s - 1]),
        e == m || char_is_whitespace(p.text[e as int]),
        e - s <= p.avail,
    ensures
        ({
            let a = render_state(p, s).cells.len();
            let cells = line_render(p).0;
            &&& a + (e - s) <= cells.len()
            &&& forall|q: int|
                a <= q < a + (e - s) ==> (#[trigger] cells[q]).0 == cells[a as int].0
                    && cells[q].1 == p.text[s + (q - a)]
        }),
{
    let lc = no_breaks(p.text);
    no_breaks_of_line(p.text, m);
    assert forall|j: int| 0 <= j < m implies lc[j] == p.text[j] by {}
    word_len_of_word(lc, s as int, e as int);
    let a = render_state(p, s).cells.len();
    // the first char of the word
    let st = render_state(p, s);
    let pr: nat = if st.printed > 0 && st.printed < p.avail && s > 0 && s - 1 < lc.len()
        && char_is_whitespace(lc[s - 1]) && st.printed + word_len_from(lc, s as int) > p.avail {
        p.avail
    } else {
        st.printed
    };
    if s == 0 {
        assert(st.printed == 0);
    }
    word_char_step(p, s, pr);
    let row = render_state(p, s + 1).row;
    assert(render_state(p, s + 1).printed + (e - (s + 1)) <= p.avail);
    word_rest(p, s, e, a, row, s + 1);
    render_keeps_cells(p, e, p.text.len());
    assert(render_state(p, e).cells[a as int].0 == row);
}

/// The entries come in order of their keys.
pub open spec fn sorted_by_key(s: Seq<EntryView>) -> bool {
    forall|i: int, j: int|
        0 <= i < j < s.len() ==> lex_le(entry_key(#[trigger] s[i]), entry_key(#[trigger] s[j]))
}

/// Where an entry with key `k` goes among sorted entries: after those that
/// do not sort after `k`, before those that do.
proof fn first_after_facts(s: Seq<EntryView>, k: Seq<char>, i: nat)
    requires
        i <= s.len(),
    ensures
        i <= first_after(s, k, i) <= s.len(),
        forall|j: int| i <= j < first_after(s, k, i) ==> !lex_lt(k, entry_key(#[trigger] s[j])),
        first_after(s, k, i) < s.len() ==> lex_lt(k, entry_key(s[first_after(s, k, i) as int])),
    decreases s.len() - i,
{
    if i < s.len() && !lex_lt(k, entry_key(s[i as int])) {
        first_after_facts(s, k, i + 1);
    }
}

/// Putting an entry in its place keeps sorted entries sorted.
proof fn insert_keeps_sorted(s: Seq<EntryView>, x: EntryView)
    requires
        sorted_by_key(s),
    ensures
        sorted_by_key(insert_entry(s, x)),
        insert_entry(s, x).to_multiset() == s.to_multiset().insert(x),
{
    let k = entry_key(x);
    first_after_facts(s, k, 0);
    let f = first_after(s, k, 0);
    let r = insert_entry(s, x);
    vstd::seq_lib::to_multiset_insert(s, f as int, x);
    assert forall|j: int| 0 <= j < f implies lex_le(entry_key(#[trigger] s[j]), k) by {
        lemma_lex_total(k, entry_key(s[j]));
        lemma_lex_total(k, k);
    }
    assert forall|j: int| f <= j < s.len() implies lex_le(k, entry_key(#[trigger] s[j])) by {
        if j > f {
            assert(lex_le(entry_key(s[f as int]), entry_key(s[j])));
            lemma_lex_transitive(k, entry_key(s[f as int]), entry_key(s[j]));
        }
    }
    assert forall|i: int, j: int| 0 <= i < j < r.len() implies lex_le(
        entry_key(#[trigger] r[i]),
        entry_key(#[trigger] r[j]),
    ) by {
        if j < f {
            assert(r[i] == s[i] && r[j] == s[j]);
        } else if j == f {
            assert(r[i] == s[i] && r[j] == x);
        } else if i < f {
            assert(r[i] == s[i] && r[j] == s[j - 1]);
            lemma_lex_transitive(entry_key(s[i]), k, entry_key(s[j - 1]));
        } else if i == f {
            assert(r[i] == x && r[j] == s[j - 1]);
        } else {
            assert(r[i] == s[i - 1] && r[j] == s[j - 1]);
        }
    }
}

/// The file browser lists each group of entries in order of their names
/// (ignoring case), and lists exactly the entries it was given.
pub proof fn lemma_browser_sorts_by_name(s: Seq<EntryView>)
    ensures
        sorted_by_key(sort_entries(s)),
        sort_entries(s).to_multiset() == s.to_multiset(),
    decreases s.len(),
{
    if s.len() > 0 {
        lemma_browser_sorts_by_name(s.drop_last());
        insert_keeps_sorted(sort_entries(s.drop_last()), s.last());
        vstd::seq_lib::to_multiset_build(s.drop_last(), s.last());
        assert(s.drop_last().push(s.last()) =~= s);
    } else {
        assert(s.to_multiset() =~= sort_entries(s).to_multiset());
    }
}

/// Where the line holding position `p` of `out` begins.
pub open spec fn line_begin(out: Seq<char>, p: nat) -> nat
    decreases p,
{
    if p == 0 || p > out.len() {
        0
    } else if out[p - 1] == '\n' {
        p
    } else {
        line_begin(out, (p - 1) as nat)
    }
}

/// The line of `out` that ends at position `p`.
pub open spec fn line_ending_at(out: Seq<char>, p: nat) -> Seq<char> {
    out.subrange(line_begin(out, p) as int, p as int)
}

/// Every line of `out` (up to a line break, or to the end) takes at most
/// 72 bytes, or holds a single word (no space).
pub open spec fn lines_fit(out: Seq<char>) -> bool {
    forall|p: nat|
        p <= out.len() && (p == out.len() || out[p as int] == '\n') ==> utf8_len(
            #[trigger] line_ending_at(out, p),
        ) <= 72 || !line_ending_at(out, p).contains(' ')
}

/// A line of `out` ends before a word only where the word, after a space,
/// would make the line longer than 72 bytes.
pub open spec fn breaks_needed(out: Seq<char>) -> bool {
    forall|p: nat|
        p + 1 < out.len() && out[p as int] == '\n' ==> utf8_len(#[trigger] line_ending_at(out, p))
            + 1 + utf8_len(word_after(out, p + 1int)) > 72
}

/// The word of `out` from position `i` on (empty at whitespace).
pub open spec fn word_after(out: Seq<char>, i: int) -> Seq<char> {
    out.subrange(i, i + word_len_from(out, i))
}

/// The bytes of two pieces add up.
proof fn utf8_concat(a: Seq<char>, b: Seq<char>)
    ensures
        utf8_len(a + b) == utf8_len(a) + utf8_len(b),
    decreases b.len(),
{
    if b.len() > 0 {
        utf8_concat(a, b.drop_last());
        assert((a + b).drop_last() =~= a + b.drop_last());
        assert((a + b).last() == b.last());
    } else {
        assert(a + b =~= a);
    }
}

/// Lines up to `p` depend only on the chars before `p`.
proof fn line_begin_prefix(x: Seq<char>, y: Seq<char>, p: nat)
    requires
        p <= x.len() <= y.len(),
        x == y.take(x.len() as int),
    ensures
        line_begin(y, p) == line_begin(x, p),
        line_begin(x, p) <= p,
        line_ending_at(y, p) == line_ending_at(x, p),
    decreases p,
{
    if p > 0 {
        assert(y[p - 1] == x[p - 1]);
        line_begin_prefix(x, y, (p - 1) as nat);
    }
    assert forall|i: int| 0 <= i < p implies y[i] == x[i] by {
        assert(y.take(x.len() as int)[i] == y[i]);
    }
    assert(line_ending_at(y, p) =~= line_ending_at(x, p));
}

/// No line break between `p` and `q`: they are on one line.
proof fn line_begin_run(x: Seq<char>, p: nat, q: nat)
    requires
        p <= q <= x.len(),
        forall|i: int| p <= i < q ==> x[i] != '\n',
    ensures
        line_begin(x, q) == line_begin(x, p),
    decreases q,
{
    if p < q {
        line_begin_run(x, p, (q - 1) as nat);
    }
}

/// A word in `x` ends where it does in a longer text that follows `x`
/// with whitespace.
proof fn word_len_prefix(x: Seq<char>, y: Seq<char>, i: nat)
    requires
        i <= x.len() < y.len(),
        x == y.take(x.len() as int),
        char_is_whitespace(y[x.len() as int]),
    ensures
        word_len_from(y, i as int) == word_len_from(x, i as int),
    decreases x.len() - i,
{
    if i < x.len() {
        assert(y[i as int] == x[i as int]);
        word_len_prefix(x, y, i + 1);
    }
}

/// The facts about lines and breaks carried over from `acc` to `acc`
/// followed by `sep` and a word `w`.
proof fn lines_after_word(acc: Seq<char>, cur: nat, sep: char, w: Seq<char>)
    requires
        lines_fit(acc),
        breaks_needed(acc),
        cur == utf8_len(line_ending_at(acc, acc.len())),
        acc.len() > 0 ==> !char_is_whitespace(acc[acc.len() - 1]),
        sep == '\n' || sep == ' ',
        w.len() > 0,
        forall|j: int| 0 <= j < w.len() ==> !char_is_whitespace(#[trigger] w[j]),
        sep == ' ' ==> cur + 1 + utf8_len(w) <= 72,
        sep == '\n' ==> cur + 1 + utf8_len(w) > 72,
    ensures
        ({
            let out = acc.push(sep) + w;
            &&& lines_fit(out)
            &&& breaks_needed(out)
            &&& !char_is_whitespace(out[out.len() - 1])
            &&& utf8_len(line_ending_at(out, out.len())) == if sep == '\n' {
                utf8_len(w)
            } else {
                cur + 1 + utf8_len(w)
            }
        }),
{
    let out = acc.push(sep) + w;
    let n = acc.len();
    assert(acc =~= out.take(n as int));
    assert(acc.push(sep) =~= out.take(n + 1int));
    assert(out[n as int] == sep);
    assert(char_is_whitespace(sep));
    assert forall|j: int| 0 <= j < w.len() implies out[n + 1 + j] == w[j] && w[j] != '\n' && w[j]
        != ' ' by {
        assert(char_is_whitespace('\n') && char_is_whitespace(' '));
    }
    // the last line
    line_begin_run(out, n + 1, out.len());
    let lb = line_begin(out, n + 1);
    if sep == '\n' {
        assert(lb == n + 1);
        assert(line_ending_at(out, out.len()) =~= w);
    } else {
        line_begin_prefix(acc, out, n);
        assert(lb == line_begin(acc, n));
        let old_line = line_ending_at(acc, n);
        assert(line_ending_at(out, out.len()) =~= old_line.push(' ') + w);
        utf8_concat(old_line.push(' '), w);
        utf8_concat(old_line, seq![' ']);
        assert(old_line.push(' ') =~= old_line + seq![' ']);
        assert(utf8_len(seq![' ']) == 1) by {
            assert(seq![' '].drop_last() =~= Seq::<char>::empty());
            assert(seq![' '].last() == ' ');
            assert(utf8_len(Seq::<char>::empty()) == 0);
        }
    }
    assert forall|p: nat|
        p <= out.len() && (p == out.len() || out[p as int] == '\n') implies utf8_len(
        #[trigger] line_ending_at(out, p),
    ) <= 72 || !line_ending_at(out, p).contains(' ') by {
        if p == out.len() {
            if sep == '\n' {
                assert(!w.contains(' '));
            }
        } else if p <= n {
            line_begin_prefix(acc, out, p);
            if p < n {
                assert(out[p as int] == acc[p as int]);
            }
        } else {
            assert(out[p as int] == w[p - n - 1]);
        }
    }
    assert forall|p: nat|
        p + 1 < out.len() && out[p as int] == '\n' implies utf8_len(
        #[trigger] line_ending_at(out, p),
    ) + 1 + utf8_len(word_after(out, p + 1int)) > 72 by {
        line_begin_prefix(acc, out, if p <= n { p } else { n });
        if p < n {
            assert(out[p as int] == acc[p as int]);
            if p + 1 < n {
                word_len_prefix(acc, out, p + 1);
                let wl = word_len_from(acc, p + 1int);
                assert(p + 1 + wl <= n) by {
                    word_len_bound(acc, p + 1int);
                }
                assert(word_after(out, p + 1int) =~= word_after(acc, p + 1int));
            } else {
                // `acc` ends in a word, not in a line break
                assert(char_is_whitespace(acc[n - 1]));
            }
        } else if p == n {
            assert(sep == '\n');
            let f = w.len() as int;
            assert forall|k: int| n + 1 <= k < n + 1 + f implies !char_is_whitespace(#[trigger] out[k]) by {
                assert(out[k] == w[k - n - 1]);
            }
            word_len_of_word(out, n + 1int, n + 1 + f);
            assert(word_after(out, p + 1int) =~= w);
        } else {
            assert(out[p as int] == w[p - n - 1]);
        }
    }
}

/// A word in `x` from `i` on stays within `x`.
proof fn word_len_bound(x: Seq<char>, i: int)
    requires
        0 <= i <= x.len(),
    ensures
        i + word_len_from(x, i) <= x.len(),
    decreases x.len() - i,
{
    if i < x.len() {
        word_len_bound(x, i + 1);
    }
}

/// What filling keeps true: lines fit, breaks are needed, and the count of
/// bytes of the last line.
proof fn fill_lines(s: Seq<char>, spans: Seq<(int, int)>)
    requires
        spans_ok(s, spans),
        spans_are_words(s, spans),
    ensures
        lines_fit(fill(s, spans).0),
        breaks_needed(fill(s, spans).0),
        fill(s, spans).1 == utf8_len(line_ending_at(fill(s, spans).0, fill(s, spans).0.len())),
        fill(s, spans).0.len() > 0 ==> !char_is_whitespace(
            fill(s, spans).0[fill(s, spans).0.len() - 1],
        ),
        (fill(s, spans).1 == 0) == (spans.len() == 0),
        spans.len() == 0 ==> fill(s, spans).0.len() == 0,
    decreases spans.len(),
{
    if spans.len() > 0 {
        let prev = spans.drop_last();
        assert(spans_ok(s, prev)) by {
            assert forall|k: int| 0 <= k < prev.len() - 1 implies #[trigger] prev[k].1 < prev[k
                + 1].0 by {
                assert(prev[k] == spans[k]);
                assert(prev[k + 1] == spans[k + 1]);
            }
        }
        assert(spans_are_words(s, prev)) by {
            assert forall|k: int, j: int|
                #![trigger prev[k], s[j]]
                0 <= k < prev.len() && prev[k].0 <= j < prev[k].1 implies !char_is_whitespace(
                s[j],
            ) by {
                assert(prev[k] == spans[k]);
            }
        }
        fill_lines(s, prev);
        let (acc, cur) = fill(s, prev);
        let last = spans.last();
        assert(spans[spans.len() - 1] == last);
        let w = s.subrange(last.0, last.1);
        assert forall|j: int| 0 <= j < w.len() implies !char_is_whitespace(#[trigger] w[j]) by {
            assert(w[j] == s[last.0 + j]);
        }
        let wl = utf8_len(w);
        assert(wl > 0) by {
            assert(w.len() > 0);
        }
        if cur + wl + 1 > 72 {
            lines_after_word(acc, cur, '\n', w);
        } else if cur > 0 {
            lines_after_word(acc, cur, ' ', w);
            assert(acc.push(' ') + w == fill(s, spans).0);
        } else {
            assert(acc.len() == 0);
            assert(acc + w =~= w);
            let out = w;
            assert forall|j: int| 0 <= j < w.len() implies w[j] != '\n' && w[j] != ' ' by {
                assert(char_is_whitespace('\n') && char_is_whitespace(' '));
            }
            line_begin_run(out, 0, out.len());
            assert(line_ending_at(out, out.len()) =~= w);
            assert forall|p: nat|
                p <= out.len() && (p == out.len() || out[p as int] == '\n') implies utf8_len(
                #[trigger] line_ending_at(out, p),
            ) <= 72 || !line_ending_at(out, p).contains(' ') by {
                assert(p == out.len());
            }
        }
    }
}

/// Ctrl+J lays the paragraph's words out in lines of at most 72 bytes
/// (a longer word stands alone on its line), and starts a new line only
/// where the next word, after a space, would not fit on the current one.
pub proof fn lemma_justify_fills_lines_of_72_bytes(s: Seq<char>)
    ensures
        lines_fit(justified(s)),
        breaks_needed(justified(s)),
{
    lemma_word_spans_ok(s);
    lemma_word_spans_are_words(s);
    fill_lines(s, word_spans(s));
    let out = fill(s, word_spans(s)).0;
    let j = justified(s);
    let n = out.len();
    assert(out =~= j.take(n as int));
    assert(char_is_whitespace('\n'));
    line_begin_prefix(out, j, n);
    assert(j[n as int] == '\n');
    assert(line_ending_at(j, n + 1) =~= Seq::<char>::empty());
    assert(utf8_len(Seq::<char>::empty()) == 0);
    assert forall|p: nat|
        p <= j.len() && (p == j.len() || j[p as int] == '\n') implies utf8_len(
        #[trigger] line_ending_at(j, p),
    ) <= 72 || !line_ending_at(j, p).contains(' ') by {
        if p <= n {
            line_begin_prefix(out, j, p);
            if p < n {
                assert(j[p as int] == out[p as int]);
            }
        }
    }
    assert forall|p: nat|
        p + 1 < j.len() && j[p as int] == '\n' implies utf8_len(#[trigger] line_ending_at(j, p))
        + 1 + utf8_len(word_after(j, p + 1int)) > 72 by {
        line_begin_prefix(out, j, p);
        assert(j[p as int] == out[p as int]);
        word_len_prefix(out, j, p + 1);
        word_len_bound(out, (p + 1) as int);
        assert(word_after(j, p + 1int) =~= word_after(out, p + 1int));
    }
}

/// Without soft wrap, scrolling moves the view only when the cursor has
/// left it, and then by no more than needed: a cursor above the view
/// brings its line to the top row, one below it to the bottom row; the
/// columns stay while the cursor's column is among them, and otherwise
/// jump so that the cursor is half a screen in (or the first column is
/// shown).
pub proof fn lemma_scroll_moves_the_view_only_when_needed(e: Editor, cols: u16, rows: u16)
    requires
        !e.soft_wrap,
        rows >= 5,
    ensures
        ({
            let (r, c) = e.scrolled(cols, rows);
            let y = e.cursor_y as nat;
            let r0 = e.row_offset as nat;
            let c0 = e.col_offset as nat;
            let visible = (rows - 4) as nat;
            let vx = e.visual_cursor_x();
            let avail = e.available_width(cols as nat);
            &&& r <= y < r + visible
            &&& r0 <= y < r0 + visible ==> r == r0
            &&& y < r0 ==> r == y
            &&& y >= r0 + visible ==> y == r + visible - 1
            &&& c <= vx < c + avail
            &&& c0 <= vx < c0 + avail ==> c == c0
            &&& !(c0 <= vx < c0 + avail) ==> (c == 0 || vx - c == avail / 2)
        }),
{
    let avail = e.available_width(cols as nat);
    assert(avail >= 1);
    assert(avail / 2 < avail);
}

/// Up and then Down (or Down and then Up) come back to the same place when
/// the goal column is the cursor's column and it fits on its line.
pub proof fn lemma_up_and_down_come_back(e0: Editor, e1: Editor, e2: Editor, up_first: bool)
    requires
        e0.wf(),
        (e0.cursor_y as nat) < line_count(e0.text()),
        e0.cursor_x as nat <= line_len_of(e0.text(), e0.cursor_y as nat),
        e0.desired_cursor_x == e0.cursor_x,
        up_first ==> e0.cursor_y > 0 && Editor::moved_up(e0, e1) && Editor::moved_down(e1, e2),
        !up_first ==> e0.cursor_y + 1 < line_count(e0.text()) && Editor::moved_down(e0, e1)
            && Editor::moved_up(e1, e2),
    ensures
        e2.text() == e0.text(),
        e2.cursor_y == e0.cursor_y,
        e2.cursor_x == e0.cursor_x,
        e1.cursor_y == if up_first {
            e0.cursor_y - 1
        } else {
            e0.cursor_y + 1
        },
        e1.cursor_x <= line_len_of(e0.text(), e1.cursor_y as nat),
{
    lemma_line_count_bound(e0.text());
}

/// Page Down and then Page Up come back to the same line when the page
/// down did not stop at the last line.
pub proof fn lemma_page_down_then_up(e0: Editor, e1: Editor, e2: Editor, rows: u16)
    requires
        e0.wf(),
        rows >= 4,
        e0.cursor_y + (rows - 4) < line_count(e0.text()),
        Editor::paged_down(e0, e1, rows),
        Editor::paged_up(e1, e2, rows),
    ensures
        e1.cursor_y == e0.cursor_y + (rows - 4),
        e2.cursor_y == e0.cursor_y,
        e2.text() == e0.text(),
{
    lemma_line_count_bound(e0.text());
}

/// The word from `j` on (up to `e`) is `e - j` cells wide.
proof fn word_width_of_word(s: Seq<char>, j: int, e: int)
    requires
        0 <= j <= e <= s.len(),
        forall|k: int| j <= k < e ==> !char_is_whitespace(#[trigger] s[k]),
        e == s.len() || char_is_whitespace(s[e]),
    ensures
        word_width_from(s, j) == e - j,
    decreases e - j,
{
    if j < e {
        word_width_of_word(s, j + 1, e);
    }
}

/// One char of a word in the wrap metrics: it takes one cell, on the
/// current row unless that row is full (after the look-ahead), on the next
/// one otherwise.
proof fn wrap_word_char_step(s: Seq<char>, k: nat, target: Option<nat>, avail: nat, cx: nat)
    requires
        k < s.len(),
        !char_is_whitespace(s[k as int]),
        cx == (if k > 0 && char_is_whitespace(s[k - 1]) && wrap_state(s, k, target, avail).cur_x
            > 0 && wrap_state(s, k, target, avail).cur_x < avail && wrap_state(
            s,
            k,
            target,
            avail,
        ).cur_x + word_width_from(s, k as int) > avail {
            avail
        } else {
            wrap_state(s, k, target, avail).cur_x
        }),
    ensures
        wrap_state(s, k + 1, target, avail).cur_y == wrap_state(s, k, target, avail).cur_y + (
        if cx >= avail {
            1nat
        } else {
            0nat
        }),
        wrap_state(s, k + 1, target, avail).cur_x == (if cx >= avail {
            0nat
        } else {
            cx
        }) + 1,
{
    let ch = s[k as int];
    assert(char_is_whitespace('\t'));
    assert(ch != '\t');
    assert((k + 1) as nat - 1 == k);
    reveal_with_fuel(place_cells, 2);
}

/// The cells of a word after its first stay on its first char's row.
proof fn wrap_word_rest(s: Seq<char>, target: Option<nat>, avail: nat, a: nat, b: nat, row: nat, k: nat)
    requires
        a + 1 <= k <= b <= s.len(),
        forall|j: int| a <= j < b ==> !char_is_whitespace(#[trigger] s[j]),
        wrap_state(s, k, target, avail).cur_x + (b - k) <= avail,
        wrap_state(s, k, target, avail).cur_y == row,
    ensures
        forall|q: nat| k <= q <= b ==> #[trigger] wrap_state(s, q, target, avail).cur_y == row,
    decreases b - k,
{
    if k < b {
        assert(!char_is_whitespace(s[k - 1]));
        wrap_word_char_step(s, k, target, avail, wrap_state(s, k, target, avail).cur_x);
        wrap_word_rest(s, target, avail, a, b, row, k + 1);
    }
}

/// In the soft-wrap metrics of a line (its chars without the line break),
/// a word (a longest run of non-whitespace chars) no wider than the row is
/// placed on one row: after each of its chars the current row is the same.
pub proof fn lemma_wrap_metrics_keep_a_word_on_one_row(
    s: Seq<char>,
    target: Option<nat>,
    avail: nat,
    a: nat,
    b: nat,
)
    requires
        avail >= 1,
        a < b <= s.len(),
        forall|j: int| a <= j < b ==> !char_is_whitespace(#[trigger] s[j]),
        a == 0 || char_is_whitespace(s[a - 1]),
        b == s.len() || char_is_whitespace(s[b as int]),
        b - a <= avail,
    ensures
        forall|q: nat|
            a + 1 <= q <= b ==> #[trigger] wrap_state(s, q, target, avail).cur_y == wrap_state(
                s,
                a + 1,
                target,
                avail,
            ).cur_y,
{
    word_width_of_word(s, a as int, b as int);
    let st = wrap_state(s, a, target, avail);
    let cx: nat = if a > 0 && char_is_whitespace(s[a - 1]) && st.cur_x > 0 && st.cur_x < avail
        && st.cur_x + word_width_from(s, a as int) > avail {
        avail
    } else {
        st.cur_x
    };
    if a == 0 {
        assert(st.cur_x == 0);
    }
    wrap_word_char_step(s, a, target, avail, cx);
    wrap_word_rest(s, target, avail, a, b, wrap_state(s, a + 1, target, avail).cur_y, a + 1);
}

/// The digits of a number's decimal form, and their value.
proof fn decimal_digits(n: nat)
    ensures
        decimal(n).len() > 0,
        forall|i: int| 0 <= i < decimal(n).len() ==> is_digit(#[trigger] decimal(n)[i]),
        digits_value(decimal(n)) == n,
    decreases n,
{
    if n >= 10 {
        decimal_digits(n / 10);
        let d = decimal(n);
        assert(d.drop_last() =~= decimal(n / 10));
        lemma_fundamental_div_mod(n as int, 10);
        lemma_mod_pos_bound(n as int, 10);
        assert(d.last() == digit_char(n % 10));
        char_round_trip(n % 10);
        assert(digits_value(d) == digits_value(d.drop_last()) * 10 + (d.last() as nat - 48) as nat);
        assert(digits_value(d.drop_last()) == n / 10);
        assert((d.last() as nat - 48) as nat == n % 10);
        assert(n == (n / 10) * 10 + n % 10);
        assert forall|i: int| 0 <= i < d.len() implies is_digit(#[trigger] d[i]) by {
            if i < d.len() - 1 {
                assert(d[i] == decimal(n / 10)[i]);
            }
        }
    } else {
        assert(decimal(n) =~= seq![digit_char(n)]);
        assert(decimal(n).drop_last() =~= Seq::<char>::empty());
        char_round_trip(n);
        assert(decimal(n).last() == digit_char(n));
        assert(digits_value(decimal(n)) == digits_value(decimal(n).drop_last()) * 10 + (decimal(n).last() as nat - 48) as nat);
    }
}

/// A digit's char stands for the digit.
proof fn char_round_trip(d: nat)
    requires
        d < 10,
    ensures
        digit_char(d) as nat == 48 + d,
        is_digit(digit_char(d)),
{
}

/// A line number as the editor shows it (Ctrl+C reports "line N") reads
/// back, at the go-to-line prompt (Ctrl+L), as the same number.
pub proof fn lemma_line_numbers_read_back(n: nat)
    requires
        n <= usize::MAX,
    ensures
        parse_usize(trim(decimal(n))) == Some(n),
{
    decimal_digits(n);
    let d = decimal(n);
    assert(!char_is_whitespace(d[0]));
    assert(!char_is_whitespace(d.last()));
    assert(trim(d) == d);
    assert(d[0] != '+');
}

/// A tab advances the display column to the next multiple of 4, and any
/// other char (but a skipped line break) by one column.
pub proof fn lemma_tab_reaches_the_next_multiple_of_4(s: Seq<char>, c: char, skip_breaks: bool)
    ensures
        c == '\t' ==> {
            let w = display_width(s, skip_breaks);
            let w2 = display_width(s.push(c), skip_breaks);
            &&& w < w2 <= w + 4
            &&& w2 % 4 == 0
        },
        c != '\t' && !(skip_breaks && (c == '\n' || c == '\r')) ==> display_width(
            s.push(c),
            skip_breaks,
        ) == display_width(s, skip_breaks) + 1,
{
    assert(s.push(c).drop_last() =~= s);
    let w = display_width(s, skip_breaks) as int;
    lemma_fundamental_div_mod(w, 4);
    lemma_mod_pos_bound(w, 4);
    if c == '\t' {
        let w2 = w + 4 - w % 4;
        assert(w2 == 4 * (w / 4 + 1));
        vstd::arithmetic::div_mod::lemma_mod_multiples_basic(w / 4 + 1, 4);
    }
}

/// Emitting `n` cells advances the display column by `n`.
proof fn emit_advances(p: LineLayout, st: RenderState, n: nat, ch: char, style: usize, hl: bool)
    ensures
        emit(p, st, n, ch, style, hl).visual_x == st.visual_x + n,
    decreases n,
{
    if n > 0 {
        let shown = if ch == '\t' {
            ' '
        } else {
            ch
        };
        let next = if p.soft_wrap {
            let (row, printed) = if st.printed >= p.avail {
                (st.row + 1, 0nat)
            } else {
                (st.row, st.printed)
            };
            RenderState {
                printed: printed + 1,
                visual_x: st.visual_x + 1,
                row,
                cells: st.cells.push((row, shown, style, hl)),
            }
        } else if st.visual_x >= p.col_offset && st.printed < p.avail {
            RenderState {
                printed: st.printed + 1,
                visual_x: st.visual_x + 1,
                row: st.row,
                cells: st.cells.push((st.row, shown, style, hl)),
            }
        } else {
            RenderState { visual_x: st.visual_x + 1, ..st }
        };
        emit_advances(p, next, (n - 1) as nat, ch, style, hl);
    }
}

/// On screen, a tab of a line takes the columns up to the next multiple
/// of 4 (unless, with soft wrap, it is whitespace at the start of a wrapped
/// row, which takes none), and a char that is not whitespace takes one.
pub proof fn lemma_layout_expands_tabs(p: LineLayout, k: nat)
    requires
        k < p.text.len(),
    ensures
        ({
            let st = render_state(p, k);
            let nx = render_state(p, k + 1);
            let skipped = p.soft_wrap && (st.printed == 0 || st.printed >= p.avail) && k > 0;
            &&& p.text[k as int] == '\t' && !skipped ==> st.visual_x < nx.visual_x <= st.visual_x + 4
                && nx.visual_x % 4 == 0
            &&& !char_is_whitespace(p.text[k as int]) ==> nx.visual_x == st.visual_x + 1
        }),
{
    let st = render_state(p, k);
    let ch = p.text[k as int];
    assert((k + 1) as nat - 1 == k);
    assert(char_is_whitespace('\t') && char_is_whitespace('\n') && char_is_whitespace('\r'));
    if ch != '\n' && ch != '\r' {
        let lc = no_breaks(p.text);
        let starts_word = k > 0 && k - 1 < lc.len() && char_is_whitespace(lc[k - 1])
            && !char_is_whitespace(ch);
        let printed = if p.soft_wrap && st.printed > 0 && st.printed < p.avail && starts_word
            && st.printed + word_len_from(lc, k as int) > p.avail {
            p.avail
        } else {
            st.printed
        };
        let n: nat = if ch == '\t' {
            (4 - st.visual_x % 4) as nat
        } else {
            1
        };
        let style = if k < p.styles.len() {
            p.styles[k as int]
        } else {
            0
        };
        emit_advances(p, RenderState { printed, ..st }, n, ch, style, is_highlighted_at(p, k));
        if ch == '\t' {
            let w = st.visual_x as int;
            lemma_fundamental_div_mod(w, 4);
            lemma_mod_pos_bound(w, 4);
            assert(w + n == 4 * (w / 4 + 1));
            vstd::arithmetic::div_mod::lemma_mod_multiples_basic(w / 4 + 1, 4);
        }
    }
}

} // verus!
