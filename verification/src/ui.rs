//! What the screen shows, as text and positions: prompts, menus, the help
//! viewer, the title bar, the status line and the cursor's place.
use vstd::prelude::*;
use crate::editor::{Editor, MenuState};
use crate::input::{KeyCode, KeyInput, is_ctrl_char};
use crate::text::{chars_of, lowercase, push_str, string_of, to_lowercase};
use crate::search::{find_from, occurs_from};
use crate::wrap::{get_soft_wrap_metrics, soft_wrap_metrics};
use crate::lines::{line_count, line_start, line_text, lemma_line_count_bound, lemma_start_mono};
use crate::rope::rope_line_chars;
use vstd::string::*;

verus! {

/// The first position of `c` in `s`, if any.
pub open spec fn first_index_of(s: Seq<char>, c: char) -> Option<nat> {
    if exists|i: int| 0 <= i < s.len() && s[i] == c {
        Some(
            (choose|i: int| 0 <= i < s.len() && s[i] == c && forall|j: int| 0 <= j < i ==> s[j] != c) as nat,
        )
    } else {
        None
    }
}

/// `s` with each non-overlapping occurrence of the two chars `pat`, from
/// the left, replaced by `rep`.
pub open spec fn replace_pair(s: Seq<char>, pat: (char, char), rep: Seq<char>) -> Seq<char>
    decreases s.len(),
{
    if s.len() >= 2 && s[0] == pat.0 && s[1] == pat.1 {
        rep + replace_pair(s.skip(2), pat, rep)
    } else if s.len() >= 1 {
        seq![s[0]] + replace_pair(s.skip(1), pat, rep)
    } else {
        seq![]
    }
}

/// A prompt without its bracketed part: when the first `[` comes before
/// the first `]`, they and what lies between them are taken out, then
/// " :" becomes ":" and two spaces become one.
pub open spec fn cleaned_prompt(s: Seq<char>) -> Seq<char> {
    match (first_index_of(s, '['), first_index_of(s, ']')) {
        (Some(a), Some(b)) => if a < b {
            let cut = s.subrange(0, a as int) + s.subrange(b + 1int, s.len() as int);
            replace_pair(replace_pair(cut, (' ', ':'), seq![':']), (' ', ' '), seq![' '])
        } else {
            s
        },
        _ => s,
    }
}

/// The first position of `c` in `v`.
fn find_char(v: &Vec<char>, c: char) -> (r: Option<usize>)
    ensures
        r matches Some(i) ==> i < v.len() && v@[i as int] == c,
        match r {
            Some(i) => first_index_of(v@, c) == Some(i as nat),
            None => first_index_of(v@, c) is None,
        },
{
    let mut i: usize = 0;
    while i < v.len()
        invariant
            i <= v.len(),
            forall|j: int| 0 <= j < i ==> v@[j] != c,
        decreases v.len() - i,
    {
        if v[i] == c {
            let ghost w = choose|k: int| 0 <= k < v@.len() && v@[k] == c && forall|j: int| 0 <= j < k ==> v@[j] != c;
            assert(0 <= i < v@.len() && v@[i as int] == c && forall|j: int| 0 <= j < i ==> v@[j] != c);
            assert(w == i) by {
                if w < i {
                    assert(v@[w] != c);
                }
                if w > i {
                    assert(v@[i as int] != c);
                }
            }
            return Some(i);
        }
        i += 1;
    }
    None
}

/// Replaces each non-overlapping occurrence of `pat` (from the left) by
/// `rep`.
fn replace_pair_chars(s: &Vec<char>, pat: (char, char), rep: char) -> (r: Vec<char>)
    ensures
        r@ == replace_pair(s@, pat, seq![rep]),
{
    let mut out: Vec<char> = Vec::new();
    let mut i: usize = 0;
    assert(s@.skip(0) == s@);
    while i < s.len()
        invariant
            i <= s.len(),
            out@ + replace_pair(s@.skip(i as int), pat, seq![rep]) == replace_pair(s@, pat, seq![rep]),
        decreases s.len() - i,
    {
        let ghost rest = s@.skip(i as int);
        if i + 1 < s.len() && s[i] == pat.0 && s[i + 1] == pat.1 {
            assert(rest[0] == s@[i as int] && rest[1] == s@[i + 1]);
            assert(rest.skip(2) == s@.skip(i + 2));
            out.push(rep);
            i += 2;
        } else {
            proof {
                assert(rest[0] == s@[i as int]);
                assert(rest.skip(1) == s@.skip(i + 1));
                if rest.len() >= 2 {
                    assert(rest[1] == s@[i + 1]);
                }
            }
            out.push(s[i]);
            i += 1;
        }
    }
    assert(s@.skip(s.len() as int).len() == 0);
    out
}

/// `v` without the chars at `a..=b`.
fn cut_out(v: &Vec<char>, a: usize, b: usize) -> (cut: Vec<char>)
    requires
        a <= b < v.len(),
    ensures
        cut@ == v@.subrange(0, a as int) + v@.subrange(b + 1int, v.len() as int),
{
    let mut cut: Vec<char> = Vec::new();
    let mut i: usize = 0;
    while i < a
        invariant
            i <= a <= b < v.len(),
            cut@ == v@.subrange(0, i as int),
        decreases a - i,
    {
        cut.push(v[i]);
        i += 1;
    }
    let mut j: usize = b + 1;
    while j < v.len()
        invariant
            b + 1 <= j <= v.len(),
            cut@ == v@.subrange(0, a as int) + v@.subrange(b + 1int, j as int),
        decreases v.len() - j,
    {
        cut.push(v[j]);
        j += 1;
    }
    cut
}

/// The prompt text without its bracketed part.
pub fn clean_prompt(prompt_text: &str) -> (r: String)
    ensures
        r@ == cleaned_prompt(prompt_text@),
{
    let v = chars_of(prompt_text);
    match (find_char(&v, '['), find_char(&v, ']')) {
        (Some(a), Some(b)) => {
            if a < b {
                let cut = cut_out(&v, a, b);
                let c1 = replace_pair_chars(&cut, (' ', ':'), ':');
                let c2 = replace_pair_chars(&c1, (' ', ' '), ' ');
                string_of(&c2)
            } else {
                string_of(&v)
            }
        },
        _ => string_of(&v),
    }
}

/// `needle` occurs in `hay`.
pub open spec fn contains(hay: Seq<char>, needle: Seq<char>) -> bool {
    occurs_from(hay, needle, 0)
}

/// Whether `needle` occurs in `hay`.
pub fn str_contains(hay: &str, needle: &str) -> (b: bool)
    ensures
        b == contains(hay@, needle@),
{
    let h = chars_of(hay);
    let n = chars_of(needle);
    match find_from(&h, &n, 0) {
        Some(p) => {
            assert(0 <= p && crate::search::occurs_at(h@, n@, p as int));
            true
        },
        None => false,
    }
}

/// A prompt asks for a file name to write (in any case).
pub open spec fn is_save_prompt(cleaned: Seq<char>) -> bool {
    contains(lowercase(cleaned), "name to write"@)
}

/// Whether the cleaned prompt asks for a file name to write.
pub fn prompt_is_save(cleaned: &str) -> (b: bool)
    ensures
        b == is_save_prompt(cleaned@),
{
    let lower = to_lowercase(cleaned);
    str_contains(lower.as_str(), "name to write")
}

/// The two menu rows shown in each menu state (the fourth entry of the
/// first page's second row says "Unjustify" right after a justification).
pub open spec fn menu_spec(state: MenuState, justified: bool) -> (Seq<(Seq<char>, Seq<char>)>, Seq<(Seq<char>, Seq<char>)>) {
    let u = if justified { " Unjustify"@ } else { " UnCut Txt"@ };
    match state {
        MenuState::Menu1 => (seq![("^O"@, " Write Out"@), ("^R"@, " Read File"@), ("^C"@, " Cur Pos"@), ("^K"@, " Cut Txt"@), ("^J"@, " Justify"@), ("M+O"@, " Other 1/3"@)], seq![("^X"@, " Exit"@), ("^W"@, " Where Is"@), ("^L"@, " To Line"@), ("^U"@, u), ("^T"@, " To Spell"@), (" ^H"@, " Help"@)]),
        MenuState::Menu2 => (seq![("^P"@, " Prv Lne"@), ("^Y"@, " Prev Pg"@), ("^B"@, " Back Chr"@), ("M+B"@, " Back Wrd"@), ("^A"@, " Beg Line"@), ("M+O"@, " Other 3/3"@)], seq![("^N"@, " Nxt Line"@), ("^V"@, " Next Pg"@), ("^F"@, " Frwd Chr"@), ("M+F"@, " Frwd Wrd"@), ("^E"@, " End Line"@), (" ^H"@, " Help"@)]),
        MenuState::Menu3 => (seq![("^\\"@, " Replace"@), ("M+S"@, " Soft Wrp"@), ("M+T"@, " Theme"@), (""@, ""@), (""@, ""@), ("M+O"@, " Other 2/3"@)], seq![("^D"@, " Delete"@), ("M+A"@, " Mark Beg"@), ("M+L"@, " Line Num"@), (""@, ""@), (""@, ""@), (" ^H"@, " Help"@)]),
        MenuState::YesNoCancel => (seq![(" Y"@, " Yes"@)], seq![(" N"@, " No"@), ("^C"@, " Cancel"@)]),
        MenuState::ReplaceAction => (seq![(" Y"@, " Yes"@), (" A"@, " All"@)], seq![(" N"@, " No"@), ("^C"@, " Cancel"@)]),
        MenuState::CancelOnly => (Seq::<(Seq<char>, Seq<char>)>::empty(), seq![("^C"@, " Cancel"@)]),
        MenuState::PromptWithBrowser => (seq![("^T"@, " To Files"@)], seq![("^C"@, " Cancel"@)]),
        MenuState::SpellCheck => (seq![("i"@, "gnore"@), ("a"@, "dd to dict"@)], seq![("^C"@, " Cancel"@)]),
    }
}

fn push_item(v: &mut Vec<(String, String)>, k: &str, d: &str)
    ensures
        final(v)@.len() == old(v)@.len() + 1,
        forall|i: int| 0 <= i < old(v)@.len() ==> final(v)@[i] == old(v)@[i],
        final(v)@[old(v)@.len() as int].0@ == k@,
        final(v)@[old(v)@.len() as int].1@ == d@,
{
    v.push((String::from_str(k), String::from_str(d)));
}

/// The views of pairs of strings.
pub open spec fn pair_views(v: Seq<(String, String)>) -> Seq<(Seq<char>, Seq<char>)> {
    v.map_values(|p: (String, String)| (p.0@, p.1@))
}

/// The two menu rows for `state`.
pub fn menu_items(state: MenuState, justified: bool) -> (r: (Vec<(String, String)>, Vec<(String, String)>))
    ensures
        pair_views(r.0@) == menu_spec(state, justified).0,
        pair_views(r.1@) == menu_spec(state, justified).1,
{
    let u = if justified { " Unjustify" } else { " UnCut Txt" };
    let mut a: Vec<(String, String)> = Vec::new();
    let mut b: Vec<(String, String)> = Vec::new();
    match state {
        MenuState::Menu1 => {
            push_item(&mut a, "^O", " Write Out");
            push_item(&mut a, "^R", " Read File");
            push_item(&mut a, "^C", " Cur Pos");
            push_item(&mut a, "^K", " Cut Txt");
            push_item(&mut a, "^J", " Justify");
            push_item(&mut a, "M+O", " Other 1/3");
            push_item(&mut b, "^X", " Exit");
            push_item(&mut b, "^W", " Where Is");
            push_item(&mut b, "^L", " To Line");
            push_item(&mut b, "^U", u);
            push_item(&mut b, "^T", " To Spell");
            push_item(&mut b, " ^H", " Help");
        },
        MenuState::Menu2 => {
            push_item(&mut a, "^P", " Prv Lne");
            push_item(&mut a, "^Y", " Prev Pg");
            push_item(&mut a, "^B", " Back Chr");
            push_item(&mut a, "M+B", " Back Wrd");
            push_item(&mut a, "^A", " Beg Line");
            push_item(&mut a, "M+O", " Other 3/3");
            push_item(&mut b, "^N", " Nxt Line");
            push_item(&mut b, "^V", " Next Pg");
            push_item(&mut b, "^F", " Frwd Chr");
            push_item(&mut b, "M+F", " Frwd Wrd");
            push_item(&mut b, "^E", " End Line");
            push_item(&mut b, " ^H", " Help");
        },
        MenuState::Menu3 => {
            push_item(&mut a, "^\\", " Replace");
            push_item(&mut a, "M+S", " Soft Wrp");
            push_item(&mut a, "M+T", " Theme");
            push_item(&mut a, "", "");
            push_item(&mut a, "", "");
            push_item(&mut a, "M+O", " Other 2/3");
            push_item(&mut b, "^D", " Delete");
            push_item(&mut b, "M+A", " Mark Beg");
            push_item(&mut b, "M+L", " Line Num");
            push_item(&mut b, "", "");
            push_item(&mut b, "", "");
            push_item(&mut b, " ^H", " Help");
        },
        MenuState::YesNoCancel => {
            push_item(&mut a, " Y", " Yes");
            push_item(&mut b, " N", " No");
            push_item(&mut b, "^C", " Cancel");
        },
        MenuState::ReplaceAction => {
            push_item(&mut a, " Y", " Yes");
            push_item(&mut a, " A", " All");
            push_item(&mut b, " N", " No");
            push_item(&mut b, "^C", " Cancel");
        },
        MenuState::CancelOnly => {
            push_item(&mut b, "^C", " Cancel");
        },
        MenuState::PromptWithBrowser => {
            push_item(&mut a, "^T", " To Files");
            push_item(&mut b, "^C", " Cancel");
        },
        MenuState::SpellCheck => {
            push_item(&mut a, "i", "gnore");
            push_item(&mut a, "a", "dd to dict");
            push_item(&mut b, "^C", " Cancel");
        },
    }
    assert(pair_views(a@) =~= menu_spec(state, justified).0);
    assert(pair_views(b@) =~= menu_spec(state, justified).1);
    (a, b)
}

impl Editor {
    /// Entering a prompt: from the first two menu pages, the menu shows
    /// the prompt's keys; the status line stops timing out.
    pub fn begin_prompt(&mut self, allow_browser: bool)
        ensures
            *final(self) == (Editor {
                menu_state: if old(self).menu_state == MenuState::Menu1 || old(self).menu_state
                    == MenuState::Menu2 {
                    if allow_browser {
                        MenuState::PromptWithBrowser
                    } else {
                        MenuState::CancelOnly
                    }
                } else {
                    old(self).menu_state
                },
                status_timed: false,
                ..*old(self)
            }),
    {
        if self.menu_state == MenuState::Menu1 || self.menu_state == MenuState::Menu2 {
            self.menu_state = if allow_browser {
                MenuState::PromptWithBrowser
            } else {
                MenuState::CancelOnly
            };
        }
        self.status_timed = false;
    }

    /// Leaving a prompt with an answer: the status line empties and the
    /// first menu page returns.
    pub fn end_prompt(&mut self)
        ensures
            final(self).status_message@ == Seq::<char>::empty(),
            *final(self) == (Editor {
                status_message: final(self).status_message,
                status_timed: false,
                menu_state: MenuState::Menu1,
                ..*old(self)
            }),
    {
        self.clear_status();
        self.menu_state = MenuState::Menu1;
    }

    /// Leaving a prompt by Esc or Ctrl+C: the status line says
    /// "Cancelled." and the first menu page returns.
    pub fn cancel_prompt(&mut self)
        ensures
            final(self).status_message@ == "Cancelled."@,
            *final(self) == (Editor {
                status_message: final(self).status_message,
                status_timed: true,
                status_fresh: true,
                menu_state: MenuState::Menu1,
                ..*old(self)
            }),
    {
        self.set_status(String::from_str("Cancelled."));
        self.menu_state = MenuState::Menu1;
    }

    /// Leaving a save prompt whose file would go into a directory that does
    /// not exist: the status line says so and the first menu page returns.
    pub fn refuse_missing_directory(&mut self)
        ensures
            final(self).status_message@ == "File not saved. Directory does not exist."@,
            *final(self) == (Editor {
                status_message: final(self).status_message,
                status_timed: true,
                status_fresh: true,
                menu_state: MenuState::Menu1,
                ..*old(self)
            }),
    {
        self.set_status(String::from_str("File not saved. Directory does not exist."));
        self.menu_state = MenuState::Menu1;
    }

    /// Asking a yes/no (or yes/no/all) question: its menu shows and the
    /// status line stops timing out.
    pub fn begin_question(&mut self, replace_menu: bool)
        ensures
            *final(self) == (Editor {
                menu_state: if replace_menu {
                    MenuState::ReplaceAction
                } else {
                    MenuState::YesNoCancel
                },
                status_timed: false,
                ..*old(self)
            }),
    {
        self.menu_state = if replace_menu {
            MenuState::ReplaceAction
        } else {
            MenuState::YesNoCancel
        };
        self.status_timed = false;
    }

    /// The question is answered (`answered`) or cancelled: the status line
    /// empties, or says "Cancelled"; the first menu page returns.
    pub fn end_question(&mut self, answered: bool)
        ensures
            answered ==> final(self).status_message@ == Seq::<char>::empty() && *final(self) == (
            Editor {
                status_message: final(self).status_message,
                status_timed: false,
                menu_state: MenuState::Menu1,
                ..*old(self)
            }),
            !answered ==> final(self).status_message@ == "Cancelled"@ && *final(self) == (Editor {
                status_message: final(self).status_message,
                status_timed: true,
                status_fresh: true,
                menu_state: MenuState::Menu1,
                ..*old(self)
            }),
    {
        if answered {
            self.clear_status();
        } else {
            self.set_status(String::from_str("Cancelled"));
        }
        self.menu_state = MenuState::Menu1;
    }
}


/// `n` spaces.
pub open spec fn spaces(n: nat) -> Seq<char> {
    Seq::new(n, |i: int| ' ')
}

/// Appends `n` spaces to `v`.
pub fn push_spaces(v: &mut Vec<char>, n: usize)
    ensures
        final(v)@ == old(v)@ + spaces(n as nat),
{
    let mut k: usize = 0;
    let ghost base = v@;
    while k < n
        invariant
            k <= n,
            v@ == base + spaces(k as nat),
        decreases n - k,
    {
        v.push(' ');
        k += 1;
        assert(v@ =~= base + spaces(k as nat));
    }
}

/// `n` spaces as a string.
pub fn space_string(n: usize) -> (s: String)
    ensures
        s@ == spaces(n as nat),
{
    let mut v: Vec<char> = Vec::new();
    push_spaces(&mut v, n);
    string_of(&v)
}

/// The text shown after a menu key in a column `col_width` wide: the
/// description padded with spaces to fill the column, or cut short when
/// key and description do not fit.
pub open spec fn menu_cell_text(key: Seq<char>, desc: Seq<char>, col_width: nat) -> Seq<char> {
    if key.len() + desc.len() <= col_width {
        desc + spaces((col_width - key.len() - desc.len()) as nat)
    } else {
        desc.take(if col_width >= key.len() { col_width - key.len() } else { 0 })
    }
}

/// The padding after `n` menu columns of `col_width` on a line `cols` wide.
pub open spec fn menu_end_pad(cols: nat, col_width: nat, n: nat) -> nat {
    if cols >= col_width * n {
        (cols - col_width * n) as nat
    } else {
        0
    }
}

/// Lays out a menu line: for each item its key and the text after it, and
/// the padding that fills the line.
pub fn menu_line_layout(cols: u16, col_width: usize, items: &Vec<(String, String)>) -> (r: (
    Vec<(String, String)>,
    usize,
))
    requires
        items@.len() <= 16,
        col_width <= 65535,
        forall|i: int| 0 <= i < items@.len() ==> items@[i].0@.len() + items@[i].1@.len() <= usize::MAX,
    ensures
        r.0@.len() == items@.len(),
        forall|i: int|
            #![trigger r.0@[i]]
            0 <= i < items@.len() ==> r.0@[i].0@ == items@[i].0@ && r.0@[i].1@ == menu_cell_text(
                items@[i].0@,
                items@[i].1@,
                col_width as nat,
            ),
        r.1 == menu_end_pad(cols as nat, col_width as nat, items@.len()),
{
    let mut out: Vec<(String, String)> = Vec::new();
    let mut printed: usize = 0;
    let mut i: usize = 0;
    while i < items.len()
        invariant
            i <= items@.len() <= 16,
            col_width <= 65535,
            forall|i: int| 0 <= i < items@.len() ==> items@[i].0@.len() + items@[i].1@.len() <= usize::MAX,
            printed == col_width * i,
            out@.len() == i,
            forall|j: int|
                #![trigger out@[j]]
                0 <= j < i ==> out@[j].0@ == items@[j].0@ && out@[j].1@ == menu_cell_text(
                    items@[j].0@,
                    items@[j].1@,
                    col_width as nat,
                ),
        decreases items@.len() - i,
    {
        let key = chars_of(items[i].0.as_str());
        let desc = chars_of(items[i].1.as_str());
        let total = key.len() + desc.len();
        let mut text: Vec<char> = Vec::new();
        if total <= col_width {
            let mut k: usize = 0;
            while k < desc.len()
                invariant
                    k <= desc.len(),
                    text@ == desc@.take(k as int),
                decreases desc.len() - k,
            {
                text.push(desc[k]);
                k += 1;
                assert(text@ =~= desc@.take(k as int));
            }
            assert(desc@.take(desc.len() as int) == desc@);
            push_spaces(&mut text, col_width - total);
        } else {
            let max_desc = if col_width >= key.len() { col_width - key.len() } else { 0 };
            let mut k: usize = 0;
            while k < desc.len() && k < max_desc
                invariant
                    k <= desc.len(),
                    k <= max_desc,
                    text@ == desc@.take(k as int),
                decreases desc.len() - k,
            {
                text.push(desc[k]);
                k += 1;
                assert(text@ =~= desc@.take(k as int));
            }
            if max_desc > desc.len() {
                assert(desc@.take(max_desc as int) == desc@.take(desc.len() as int)) by {
                    assert(desc@.take(desc.len() as int) == desc@);
                }
            }
        }
        assert(text@ == menu_cell_text(items@[i as int].0@, items@[i as int].1@, col_width as nat));
        let ghost before = out@;
        let key_text = items[i].0.clone();
        assert(key_text@ == items@[i as int].0@);
        out.push((key_text, string_of(&text)));
        assert forall|j: int| 0 <= j < i implies out@[j] == before[j] by {}
        assert(out@[i as int].0@ == items@[i as int].0@);
        assert forall|j: int| #![trigger out@[j]] 0 <= j < i + 1 implies out@[j].0@ == items@[j].0@
            && out@[j].1@ == menu_cell_text(items@[j].0@, items@[j].1@, col_width as nat) by {
            if j < i {
                assert(out@[j] == before[j]);
            }
        }
        assert(out@[i as int].1@ == menu_cell_text(items@[i as int].0@, items@[i as int].1@, col_width as nat));
        proof {
            assert(col_width * (i + 1) == col_width * i + col_width) by (nonlinear_arith);
            assert(col_width * (i + 1) <= 65535 * 16) by (nonlinear_arith)
                requires
                    col_width <= 65535,
                    i + 1 <= 16,
            ;
        }
        printed = printed + col_width;
        i += 1;
    }
    let pad = if (cols as usize) >= printed { cols as usize - printed } else { 0 };
    (out, pad)
}

/// Scanning a help line for the start of its description, from position
/// `i`: the first non-space char after two spaces in a row.
pub open spec fn desc_start_from(s: Seq<char>, i: nat, prev_space: bool, found_gap: bool) -> Option<nat>
    decreases s.len() - i,
{
    if i >= s.len() {
        None
    } else if s[i as int] == ' ' {
        desc_start_from(s, i + 1, true, found_gap || prev_space)
    } else if found_gap {
        Some(i)
    } else {
        desc_start_from(s, i + 1, false, found_gap)
    }
}

/// Where a help line splits into hot keys and description: only lines that
/// start with exactly four spaces split, at the first non-space char after
/// a run of two spaces (looking from the fifth char on).
pub open spec fn help_split(s: Seq<char>) -> Option<nat> {
    if s.len() >= 4 && s[0] == ' ' && s[1] == ' ' && s[2] == ' ' && s[3] == ' ' && !(s.len() >= 5
        && s[4] == ' ') {
        desc_start_from(s, 4, false, false)
    } else {
        None
    }
}

/// A help line cut to `cols` chars and split into its hot keys and its
/// description (the hot-key part is empty when the line does not split).
pub open spec fn help_view(line: Seq<char>, cols: nat) -> (Seq<char>, Seq<char>) {
    let t = if line.len() > cols {
        line.take(cols as int)
    } else {
        line
    };
    match help_split(t) {
        Some(k) => (t.take(k as int), t.skip(k as int)),
        None => (seq![], t),
    }
}

/// Cuts a help line to `cols` chars and splits it into hot keys and
/// description.
pub fn help_line_view(line: &str, cols: usize) -> (r: (String, String))
    ensures
        (r.0@, r.1@) == help_view(line@, cols as nat),
{
    let all = chars_of(line);
    let mut t: Vec<char> = Vec::new();
    let n = if all.len() > cols { cols } else { all.len() };
    let mut i: usize = 0;
    while i < n
        invariant
            i <= n <= all.len(),
            t@ == all@.take(i as int),
        decreases n - i,
    {
        t.push(all[i]);
        i += 1;
        assert(t@ =~= all@.take(i as int));
    }
    assert(t@ == (if all@.len() > cols { all@.take(cols as int) } else { all@ })) by {
        if all@.len() <= cols {
            assert(all@.take(all@.len() as int) == all@);
        }
    }
    let starts = t.len() >= 4 && t[0] == ' ' && t[1] == ' ' && t[2] == ' ' && t[3] == ' ' && !(
    t.len() >= 5 && t[4] == ' ');
    let mut split: Option<usize> = None;
    if starts {
        let mut k: usize = 4;
        let mut prev_space = false;
        let mut found_gap = false;
        while k < t.len() && split.is_none()
            invariant
                4 <= k <= t.len(),
                split matches Some(kk) ==> kk < t.len() && desc_start_from(t@, 4, false, false)
                    == Some(kk as nat),
                split is None ==> desc_start_from(t@, k as nat, prev_space, found_gap)
                    == desc_start_from(t@, 4, false, false),
            decreases (t.len() - k) as int + (if split is None { 1int } else { 0int }),
        {
            if t[k] == ' ' {
                found_gap = found_gap || prev_space;
                prev_space = true;
                k += 1;
            } else {
                if found_gap {
                    split = Some(k);
                } else {
                    prev_space = false;
                    k += 1;
                }
            }
        }
    }
    assert(split is None ==> help_split(t@) is None) by {
        if starts {
        }
    }
    match split {
        Some(k) => {
            let mut a: Vec<char> = Vec::new();
            let mut b: Vec<char> = Vec::new();
            let mut j: usize = 0;
            while j < t.len()
                invariant
                    j <= t.len(),
                    k <= t.len(),
                    j <= k ==> a@ == t@.take(j as int) && b@.len() == 0,
                    j > k ==> a@ == t@.take(k as int) && b@ == t@.subrange(k as int, j as int),
                decreases t.len() - j,
            {
                if j < k {
                    a.push(t[j]);
                    assert(a@ =~= t@.take(j + 1));
                } else {
                    b.push(t[j]);
                    assert(b@ =~= t@.subrange(k as int, j + 1));
                }
                j += 1;
            }
            (string_of(&a), string_of(&b))
        },
        None => (String::new(), string_of(&t)),
    }
}


/// The file part of the title bar: the file's name, or when title, name
/// and the "[ Modified ]" mark do not fit in `cols`, the name cut short and
/// ended with "..." (or left out when fewer than four columns remain).
pub open spec fn title_file_section(title_len: nat, file: Seq<char>, cols: nat, modified: bool) -> Seq<
    char,
> {
    let right: nat = if modified {
        12
    } else {
        0
    };
    let max_allow: nat = if cols >= right {
        (cols - right) as nat
    } else {
        0
    };
    if title_len + file.len() > max_allow {
        let allowed: nat = if max_allow >= title_len {
            (max_allow - title_len) as nat
        } else {
            0
        };
        if allowed > 3 {
            file.take(allowed - 3) + "..."@
        } else {
            seq![]
        }
    } else {
        file
    }
}

/// The padding between the file part and the right edge (or the
/// "[ Modified ]" mark).
pub open spec fn title_pad(title_len: nat, section_len: nat, cols: nat, modified: bool) -> nat {
    let used = title_len + section_len + if modified {
        12nat
    } else {
        0nat
    };
    if cols >= used {
        (cols - used) as nat
    } else {
        0
    }
}

/// Lays out the title bar: the file part and the padding after it.
pub fn title_bar(title: &str, file: &str, cols: u16, modified: bool) -> (r: (String, usize))
    requires
        title@.len() + file@.len() <= usize::MAX / 2,
    ensures
        r.0@ == title_file_section(title@.len(), file@, cols as nat, modified),
        r.1 == title_pad(title@.len(), r.0@.len(), cols as nat, modified),
{
    proof {
        reveal_strlit("...");
    }
    let t = chars_of(title);
    let f = chars_of(file);
    let right: usize = if modified { 12 } else { 0 };
    let cols_u = cols as usize;
    let max_allow = if cols_u >= right { cols_u - right } else { 0 };
    let mut section: Vec<char> = Vec::new();
    if t.len() + f.len() > max_allow {
        let allowed = if max_allow >= t.len() { max_allow - t.len() } else { 0 };
        if allowed > 3 {
            let n = allowed - 3;
            let mut i: usize = 0;
            while i < n
                invariant
                    i <= n < f.len(),
                    section@ == f@.take(i as int),
                decreases n - i,
            {
                section.push(f[i]);
                i += 1;
                assert(section@ =~= f@.take(i as int));
            }
            push_str(&mut section, "...");
        }
    } else {
        let mut i: usize = 0;
        while i < f.len()
            invariant
                i <= f.len(),
                section@ == f@.take(i as int),
            decreases f.len() - i,
        {
            section.push(f[i]);
            i += 1;
            assert(section@ =~= f@.take(i as int));
        }
        assert(f@.take(f.len() as int) == f@);
    }
    let used = t.len() + section.len() + right;
    let pad = if cols_u >= used { cols_u - used } else { 0 };
    (string_of(&section), pad)
}

/// A line without its CR and LF chars.
pub open spec fn no_breaks(s: Seq<char>) -> Seq<char> {
    s.filter(|c: char| c != '\n' && c != '\r')
}

/// The chars of `v` other than CR and LF.
pub fn without_breaks(v: &Vec<char>) -> (r: Vec<char>)
    ensures
        r@ == no_breaks(v@),
        r.len() <= v.len(),
{
    let mut r: Vec<char> = Vec::new();
    let mut i: usize = 0;
    while i < v.len()
        invariant
            i <= v.len(),
            r@ == no_breaks(v@.take(i as int)),
            r.len() <= i,
        decreases v.len() - i,
    {
        proof {
            reveal_with_fuel(Seq::filter, 1);
            assert(v@.take(i + 1).drop_last() == v@.take(i as int));
        }
        if v[i] != '\n' && v[i] != '\r' {
            r.push(v[i]);
        }
        i += 1;
    }
    assert(v@.take(v.len() as int) == v@);
    r
}

/// The screen rows that lines `a..b` take when soft-wrapped at `avail`.
pub open spec fn wrapped_rows(t: Seq<char>, a: nat, b: nat, avail: nat) -> nat
    decreases b,
{
    if b <= a {
        0
    } else {
        wrapped_rows(t, a, (b - 1) as nat, avail) + soft_wrap_metrics(
            no_breaks(line_text(t, (b - 1) as nat)),
            None,
            avail,
        ).0
    }
}

impl Editor {
    /// The screen position of the cursor on a screen `cols` by `rows`
    /// (title on row 0, text below, three rows for status and menus), as
    /// `(column, row)`.
    pub open spec fn cursor_screen_spec(&self, cols: nat, rows: nat) -> (nat, nat) {
        let t = self.text();
        let g = self.gutter_width();
        let avail: nat = if cols >= g + 1 {
            (cols - g - 1) as nat
        } else {
            0
        };
        let visible: nat = if rows >= 3 {
            (rows - 3) as nat
        } else {
            0
        };
        let (y, x) = if self.soft_wrap {
            let m = soft_wrap_metrics(
                no_breaks(line_text(t, self.cursor_y as nat)),
                Some(self.visual_cursor_x()),
                avail,
            );
            (wrapped_rows(t, self.row_offset as nat, self.cursor_y as nat, avail) + m.1, g + m.2)
        } else {
            (
                if self.cursor_y >= self.row_offset {
                    (self.cursor_y - self.row_offset) as nat
                } else {
                    0
                },
                g + if self.visual_cursor_x() >= self.col_offset {
                    (self.visual_cursor_x() - self.col_offset) as nat
                } else {
                    0
                },
            )
        };
        let max_y: nat = if visible >= 1 {
            (visible - 1) as nat
        } else {
            0
        };
        let max_x: nat = if cols >= 1 {
            (cols - 1) as nat
        } else {
            0
        };
        (if x <= max_x {
            x
        } else {
            max_x
        }, (if y <= max_y {
            y
        } else {
            max_y
        }) + 1)
    }

    /// Where the terminal cursor goes: `(column, row)`.  With soft wrap,
    /// the cursor's line is measured, so the cursor must be on one.
    pub fn cursor_screen_position(&self, cols: u16, rows: u16) -> (r: (usize, usize))
        requires
            self.wf(),
            self.within_limits(),
            self.soft_wrap ==> !self.past_last_line(),
        ensures
            (r.0 as nat, r.1 as nat) == self.cursor_screen_spec(cols as nat, rows as nat),
    {
        let ghost t = self.text();
        let g = self.get_gutter_width();
        let cols_u = cols as usize;
        let avail = if cols_u >= g + 1 { cols_u - g - 1 } else { 0 };
        let visible: usize = if rows >= 3 { (rows - 3) as usize } else { 0 };
        let vx = self.get_visual_cursor_x();
        let (y, x) = if self.soft_wrap {
            let mut temp: usize = 0;
            let mut i = self.row_offset;
            proof {
                lemma_line_count_bound(t);
            }
            if i < self.cursor_y {
                proof {
                    lemma_start_mono(t, i as nat, i as nat);
                }
                while i < self.cursor_y
                    invariant
                        self.row_offset <= i <= self.cursor_y < line_count(t),
                        line_count(t) <= t.len() + 1,
                        t == self.text(),
                        self.within_limits(),
                        avail <= 65535,
                        temp == wrapped_rows(t, self.row_offset as nat, i as nat, avail as nat),
                        temp <= 4 * line_start(t, i as nat) + i,
                    decreases self.cursor_y - i,
                {
                    let line = rope_line_chars(&self.buffer, i);
                    proof {
                        self.lemma_line_len_fits(i as nat);
                        lemma_start_mono(t, (i + 1) as nat, (i + 1) as nat);
                    }
                    let chars = without_breaks(&line);
                    let (rows_taken, _, _) = get_soft_wrap_metrics(&chars, None, avail);
                    assert(line.len() == line_start(t, (i + 1) as nat) - line_start(t, i as nat));
                    assert(temp + rows_taken <= 4 * line_start(t, (i + 1) as nat) + i + 1);
                    temp = temp + rows_taken;
                    i += 1;
                }
            }
            let line = rope_line_chars(&self.buffer, self.cursor_y);
            proof {
                self.lemma_line_len_fits(self.cursor_y as nat);
            }
            let chars = without_breaks(&line);
            let (_, ty, tx) = get_soft_wrap_metrics(&chars, Some(vx), avail);
            (temp + ty, g + tx)
        } else {
            (
                if self.cursor_y >= self.row_offset { self.cursor_y - self.row_offset } else { 0 },
                g + if vx >= self.col_offset { vx - self.col_offset } else { 0 },
            )
        };
        let max_y = if visible >= 1 { visible - 1 } else { 0 };
        let max_x = if cols_u >= 1 { cols_u - 1 } else { 0 };
        (if x <= max_x { x } else { max_x }, (if y <= max_y { y } else { max_y }) + 1)
    }
}


/// What a key does in the help viewer showing `total` lines, `visible` at a
/// time from `offset`: `None` leaves the viewer (Ctrl+X, Ctrl+G, F2, Esc),
/// otherwise the new offset (Up/Ctrl+P and Down/Ctrl+N by a line, PgUp/F7/
/// Ctrl+Y and PgDn/F8/Ctrl+V by a screen).
pub open spec fn help_scroll_spec(offset: nat, visible: nat, total: nat, key: KeyInput) -> Option<nat> {
    if is_ctrl_char(key, 'x') || is_ctrl_char(key, 'g') || key.code == KeyCode::F(2) || key.code
        == KeyCode::Esc {
        None
    } else if key.code == KeyCode::Up || is_ctrl_char(key, 'p') {
        Some(if offset >= 1 { (offset - 1) as nat } else { 0 })
    } else if key.code == KeyCode::Down || is_ctrl_char(key, 'n') {
        Some(if offset + visible < total { offset + 1 } else { offset })
    } else if key.code == KeyCode::PageUp || key.code == KeyCode::F(7) || is_ctrl_char(key, 'y') {
        Some(if offset >= visible { (offset - visible) as nat } else { 0 })
    } else if key.code == KeyCode::PageDown || key.code == KeyCode::F(8) || is_ctrl_char(key, 'v') {
        let max_offset: nat = if total >= visible { (total - visible) as nat } else { 0 };
        Some(if offset + visible <= max_offset { offset + visible } else { max_offset })
    } else {
        Some(offset)
    }
}

/// What a key does in the help viewer.
pub fn help_scroll(offset: usize, visible: usize, total: usize, key: KeyInput) -> (r: Option<usize>)
    requires
        offset <= usize::MAX / 2,
        visible <= 65535,
    ensures
        match r {
            Some(v) => help_scroll_spec(offset as nat, visible as nat, total as nat, key) == Some(v as nat),
            None => help_scroll_spec(offset as nat, visible as nat, total as nat, key) is None,
        },
{
    let ctrl_is = |c: char| -> (b: bool)
        ensures
            b == (key.code == KeyCode::Char(c) && key.ctrl),
        { key.code == KeyCode::Char(c) && key.ctrl };
    if ctrl_is('x') || ctrl_is('g') || key.code == KeyCode::F(2) || key.code == KeyCode::Esc {
        None
    } else if key.code == KeyCode::Up || ctrl_is('p') {
        Some(if offset >= 1 { offset - 1 } else { 0 })
    } else if key.code == KeyCode::Down || ctrl_is('n') {
        Some(if offset + visible < total { offset + 1 } else { offset })
    } else if key.code == KeyCode::PageUp || key.code == KeyCode::F(7) || ctrl_is('y') {
        Some(if offset >= visible { offset - visible } else { 0 })
    } else if key.code == KeyCode::PageDown || key.code == KeyCode::F(8) || ctrl_is('v') {
        let max_offset = if total >= visible { total - visible } else { 0 };
        Some(if offset + visible <= max_offset { offset + visible } else { max_offset })
    } else {
        Some(offset)
    }
}

/// What a key does in the file browser.
#[derive(PartialEq, Eq, Structural, Clone, Copy, Debug)]
pub enum BrowserAction {
    /// Leave the browser without a choice.
    Cancel,
    /// Select the highlighted entry.
    Select,
    /// Highlight the entry at this index.
    Highlight(usize),
}

/// What a key does in the file browser with `count` entries, the entry at
/// `selected` highlighted and `visible` rows: Esc/Ctrl+C cancel, Enter
/// selects, the arrows (or Ctrl+P, Ctrl+N) and the page keys move the
/// highlight.
pub open spec fn browser_key_spec(selected: nat, count: nat, visible: nat, key: KeyInput) -> BrowserAction {
    if key.code == KeyCode::Esc || is_ctrl_char(key, 'c') {
        BrowserAction::Cancel
    } else if key.code == KeyCode::Up || is_ctrl_char(key, 'p') {
        BrowserAction::Highlight((if selected >= 1 { selected - 1 } else { 0 }) as usize)
    } else if key.code == KeyCode::Down || is_ctrl_char(key, 'n') {
        BrowserAction::Highlight((if selected + 1 < count { selected + 1 } else { selected }) as usize)
    } else if key.code == KeyCode::PageUp || key.code == KeyCode::F(7) || is_ctrl_char(key, 'y') {
        BrowserAction::Highlight((if selected >= visible { selected - visible } else { 0 }) as usize)
    } else if key.code == KeyCode::PageDown || key.code == KeyCode::F(8) || is_ctrl_char(key, 'v') {
        let max_offset: nat = if count >= 1 { (count - 1) as nat } else { 0 };
        BrowserAction::Highlight(
            (if selected + visible <= max_offset { selected + visible } else { max_offset }) as usize,
        )
    } else if key.code == KeyCode::Enter {
        BrowserAction::Select
    } else {
        BrowserAction::Highlight(selected as usize)
    }
}

/// What a key does in the file browser.
pub fn browser_key(selected: usize, count: usize, visible: usize, key: KeyInput) -> (r: BrowserAction)
    requires
        selected <= usize::MAX / 2,
        visible <= 65535,
    ensures
        r == browser_key_spec(selected as nat, count as nat, visible as nat, key),
{
    let ctrl_is = |c: char| -> (b: bool)
        ensures
            b == (key.code == KeyCode::Char(c) && key.ctrl),
        { key.code == KeyCode::Char(c) && key.ctrl };
    if key.code == KeyCode::Esc || ctrl_is('c') {
        BrowserAction::Cancel
    } else if key.code == KeyCode::Up || ctrl_is('p') {
        BrowserAction::Highlight(if selected >= 1 { selected - 1 } else { 0 })
    } else if key.code == KeyCode::Down || ctrl_is('n') {
        BrowserAction::Highlight(if selected + 1 < count { selected + 1 } else { selected })
    } else if key.code == KeyCode::PageUp || key.code == KeyCode::F(7) || ctrl_is('y') {
        BrowserAction::Highlight(if selected >= visible { selected - visible } else { 0 })
    } else if key.code == KeyCode::PageDown || key.code == KeyCode::F(8) || ctrl_is('v') {
        let max_offset = if count >= 1 { count - 1 } else { 0 };
        BrowserAction::Highlight(
            if selected + visible <= max_offset { selected + visible } else { max_offset },
        )
    } else if key.code == KeyCode::Enter {
        BrowserAction::Select
    } else {
        BrowserAction::Highlight(selected)
    }
}

/// The first entry shown so that the highlighted one is on screen: moved
/// up to it, or down until it is the last visible row.
pub open spec fn browser_scroll_spec(selected: nat, scroll: nat, visible: nat) -> nat {
    let s1 = if selected < scroll { selected } else { scroll };
    if selected >= s1 + visible {
        (selected + 1 - visible) as nat
    } else {
        s1
    }
}

/// The first entry shown so that the highlighted one is on screen.
pub fn browser_scroll(selected: usize, scroll: usize, visible: usize) -> (r: usize)
    requires
        selected < usize::MAX,
        scroll <= usize::MAX / 2,
        visible <= 65535,
    ensures
        r == browser_scroll_spec(selected as nat, scroll as nat, visible as nat),
{
    let mut s = scroll;
    if selected < s {
        s = selected;
    }
    if selected >= s + visible {
        s = selected + 1 - visible;
    }
    s
}

/// Centering a title bar: the padding before `title` so that `path`
/// (`path_len` bytes) sits centered on `cols`, and the padding after it.
pub open spec fn browser_title_pads(title_len: nat, path_len: nat, cols: nat) -> (nat, nat) {
    let center_start: nat = (if cols >= path_len { (cols - path_len) as nat } else { 0 }) / 2;
    let pad1: nat = if center_start >= title_len { (center_start - title_len) as nat } else { 0 };
    let combined = title_len + pad1 + path_len;
    (pad1, if cols >= combined { (cols - combined) as nat } else { 0 })
}

/// The paddings of the browser's title bar.
pub fn browser_title_layout(title_len: usize, path_len: usize, cols: u16) -> (r: (usize, usize))
    requires
        title_len <= usize::MAX / 4,
        path_len <= usize::MAX / 4,
    ensures
        (r.0 as nat, r.1 as nat) == browser_title_pads(title_len as nat, path_len as nat, cols as nat),
{
    let c = cols as usize;
    let center_start = (if c >= path_len { c - path_len } else { 0 }) / 2;
    let pad1 = if center_start >= title_len { center_start - title_len } else { 0 };
    let combined = title_len + pad1 + path_len;
    (pad1, if c >= combined { c - combined } else { 0 })
}

/// Centering a title of `title_len` in `cols`: the padding before and
/// after it.
pub open spec fn centered_pads(title_len: nat, cols: nat) -> (nat, nat) {
    let pad = (if cols >= title_len { (cols - title_len) as nat } else { 0 }) / 2;
    (pad, if cols >= title_len + pad { (cols - title_len - pad) as nat } else { 0 })
}

/// The paddings of a centered title.
pub fn centered_title(title_len: usize, cols: u16) -> (r: (usize, usize))
    requires
        title_len <= usize::MAX / 4,
    ensures
        (r.0 as nat, r.1 as nat) == centered_pads(title_len as nat, cols as nat),
{
    let c = cols as usize;
    let pad = (if c >= title_len { c - title_len } else { 0 }) / 2;
    (pad, if c >= title_len + pad { c - title_len - pad } else { 0 })
}

} // verus!
