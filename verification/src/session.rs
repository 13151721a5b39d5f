//! The editor's life around the buffer: its construction, reading a file
//! into it, writing it out, leaving, and the timing of the event loop.
use vstd::prelude::*;
use crate::config::{lines_from, text_lines};
use crate::editor::{Editor, MenuState};
use crate::lines::{inserted, lemma_insert_lines, lemma_line_facts, lemma_line_of_bound, line_count, line_of};
use crate::rope::{rope_from_str, rope_insert, rope_len_chars, rope_len_lines, rope_text, rope_to_string};
use crate::text::{chars_of, decimal, push_decimal, push_str, string_of};
use vstd::string::*;

verus! {

/// The theme used when the settings name none there is.
pub open spec fn default_theme() -> Seq<char> {
    "base16-ocean.dark"@
}

impl Editor {
    /// A new editor on the text `text` of the file `filename` (if any), with
    /// the settings read (a theme that is not among `theme_names` gives way
    /// to the default one), and `status` in the status line.
    pub fn new(
        filename: Option<String>,
        text: String,
        theme_names: &Vec<String>,
        settings: (String, bool, bool),
        status: String,
    ) -> (e: Editor)
        ensures
            e.wf(),
            e.text() == text@,
            e.cursor_x == 0 && e.cursor_y == 0 && e.desired_cursor_x == 0,
            e.mark is None,
            e.row_offset == 0 && e.col_offset == 0,
            e.filename == filename,
            !e.should_quit,
            e.status_message@ == status@ && e.status_timed && e.status_fresh,
            e.clipboard@ == Seq::<char>::empty(),
            e.current_suggestions@.len() == 0,
            !e.is_modified,
            e.last_search is None,
            e.menu_state == MenuState::Menu1,
            e.highlight_match is None,
            e.cache_stale,
            e.current_theme@ == if theme_names@.map_values(|s: String| s@).contains(settings.0@) {
                settings.0@
            } else {
                default_theme()
            },
            !e.is_justified,
            e.pre_justify_snapshot is None,
            e.show_line_numbers == settings.1,
            e.soft_wrap == settings.2,
            !e.previous_action_was_cut,
            !e.escape_pending,
            e.update_version is None,
    {
        let buffer = rope_from_str(text.as_str());
        let (theme, line_numbers, soft_wrap) = settings;
        let known = crate::config::next_theme_index(theme_names, theme.as_str()).is_some();
        let current_theme = if known {
            theme
        } else {
            proof {
                reveal_strlit("base16-ocean.dark");
            }
            String::from_str("base16-ocean.dark")
        };
        let _len = rope_len_chars(&buffer);
        proof {
            lemma_line_facts(rope_text(buffer));
        }
        Editor {
            buffer,
            cursor_x: 0,
            cursor_y: 0,
            desired_cursor_x: 0,
            mark: None,
            row_offset: 0,
            col_offset: 0,
            filename,
            should_quit: false,
            status_message: status,
            status_timed: true,
            status_fresh: true,
            clipboard: String::new(),
            current_suggestions: Vec::new(),
            is_modified: false,
            last_search: None,
            menu_state: MenuState::Menu1,
            highlight_match: None,
            cache_stale: true,
            current_theme,
            is_justified: false,
            pre_justify_snapshot: None,
            show_line_numbers: line_numbers,
            soft_wrap,
            previous_action_was_cut: false,
            escape_pending: false,
            update_version: None,
        }
    }

    /// The text of the buffer.
    pub fn buffer_text(&self) -> (s: String)
        ensures
            s@ == self.text(),
    {
        rope_to_string(&self.buffer)
    }

    /// The number of lines of the buffer.
    pub fn line_count(&self) -> (n: usize)
        ensures
            n == line_count(self.text()),
    {
        rope_len_lines(&self.buffer)
    }

    /// Inserts the text `contents` of a file at the cursor, which stays
    /// where it is, and reports how many lines were read.
    pub fn insert_file_contents(&mut self, contents: String)
        requires
            old(self).wf(),
            old(self).text().len() + contents@.len() <= usize::MAX,
        ensures
            final(self).wf(),
            final(self).text() == inserted(
                old(self).text(),
                old(self).cursor_index() as int,
                contents@,
            ),
            final(self).status_message@ == "Read "@ + decimal(text_lines(contents@).len())
                + " lines"@,
            *final(self) == (Editor {
                buffer: final(self).buffer,
                status_message: final(self).status_message,
                status_timed: true,
                status_fresh: true,
                is_modified: true,
                cache_stale: true,
                ..*old(self)
            }),
    {
        let idx = self.get_cursor_char_idx();
        let ghost t = self.text();
        let n = count_lines(contents.as_str());
        let c_chars = chars_of(contents.as_str());
        if c_chars.len() > 0 {
            let ghost c = contents@;
            rope_insert(&mut self.buffer, idx, contents.as_str());
            proof {
                lemma_line_facts(t);
                if (self.cursor_y as nat) < line_count(t) {
                    lemma_line_of_bound(t, idx as nat, self.cursor_y as nat);
                } else {
                    assert(line_of(t, idx as nat) + 1 == line_count(t));
                }
                lemma_insert_lines(t, c, idx as nat);
                lemma_line_facts(self.text());
            }
        } else {
            rope_insert(&mut self.buffer, idx, contents.as_str());
            assert(self.text() =~= t);
        }
        let mut v: Vec<char> = Vec::new();
        push_str(&mut v, "Read ");
        push_decimal(&mut v, n);
        push_str(&mut v, " lines");
        self.set_status(string_of(&v));
        self.mark_modified();
    }

    /// The question asked for the name to write to, with the current file
    /// name (if any) offered in brackets.
    pub open spec fn save_question(&self) -> Seq<char> {
        match self.filename {
            Some(f) => if f@.len() > 0 {
                "File name to write ["@ + f@ + "]: "@
            } else {
                "File name to write: "@
            },
            None => "File name to write: "@,
        }
    }

    /// The question asked for the name to write to (see `save_question`).
    pub fn save_prompt_text(&self) -> (s: String)
        ensures
            s@ == self.save_question(),
    {
        match &self.filename {
            Some(f) => {
                let v = chars_of(f.as_str());
                if v.len() > 0 {
                    let mut w: Vec<char> = Vec::new();
                    push_str(&mut w, "File name to write [");
                    push_str(&mut w, f.as_str());
                    push_str(&mut w, "]: ");
                    string_of(&w)
                } else {
                    String::from_str("File name to write: ")
                }
            },
            None => String::from_str("File name to write: "),
        }
    }

    /// A file name is set, and it is not empty.
    pub open spec fn has_file_name(&self) -> bool {
        match self.filename {
            Some(f) => f@.len() > 0,
            None => false,
        }
    }

    /// The name to write to for the answer `input`: the answer, or when it
    /// is empty the current file name; with neither, the save is cancelled
    /// and says so.
    pub fn resolve_save_name(&mut self, input: String) -> (r: Option<String>)
        ensures
            input@.len() > 0 ==> r == Some(input) && *final(self) == *old(self),
            input@.len() == 0 && old(self).has_file_name() ==> r == old(self).filename
                && *final(self) == *old(self),
            input@.len() == 0 && !old(self).has_file_name() ==> r is None
                && final(self).status_message@ == "Save cancelled: No filename provided."@
                && *final(self) == (Editor {
                status_message: final(self).status_message,
                status_timed: true,
                status_fresh: true,
                ..*old(self)
            }),
    {
        let v = chars_of(input.as_str());
        if v.len() > 0 {
            return Some(input);
        }
        match &self.filename {
            Some(f) => {
                let w = chars_of(f.as_str());
                if w.len() > 0 {
                    return Some(f.clone());
                }
            },
            None => {},
        }
        self.set_status(String::from_str("Save cancelled: No filename provided."));
        None
    }

    /// The file edited is `name`.
    pub open spec fn is_file_name(&self, name: Seq<char>) -> bool {
        match self.filename {
            Some(f) => f@ == name,
            None => false,
        }
    }

    /// Whether writing to `name` must first be confirmed: the file exists
    /// and is not the one being edited.
    pub fn needs_overwrite_confirm(&self, name: &str, exists: bool) -> (b: bool)
        ensures
            b == (exists && !self.is_file_name(name@)),
    {
        if !exists {
            return false;
        }
        match &self.filename {
            Some(f) => !same_text(f.as_str(), name),
            None => true,
        }
    }

    /// The question asked before writing over the file `name`.
    pub open spec fn overwrite_question_text(name: Seq<char>) -> Seq<char> {
        "File \""@ + name + "\" exists, OVERWRITE ?"@
    }

    /// The question asked before writing over the file `name` (see
    /// `overwrite_question_text`).
    pub fn overwrite_question(name: &str) -> (s: String)
        ensures
            s@ == Self::overwrite_question_text(name@),
    {
        let mut v: Vec<char> = Vec::new();
        push_str(&mut v, "File \"");
        push_str(&mut v, name);
        push_str(&mut v, "\" exists, OVERWRITE ?");
        string_of(&v)
    }

    /// Takes the answer to the question whether to overwrite; anything but
    /// yes cancels the save and says so.  Returns whether to go on.
    pub fn confirm_overwrite(&mut self, answer: Option<bool>) -> (go_on: bool)
        ensures
            go_on == (answer == Some(true)),
            go_on ==> *final(self) == *old(self),
            !go_on ==> final(self).status_message@ == "Save cancelled"@ && *final(self) == (
            Editor {
                status_message: final(self).status_message,
                status_timed: true,
                status_fresh: true,
                ..*old(self)
            }),
    {
        match answer {
            Some(true) => true,
            _ => {
                self.set_status(String::from_str("Save cancelled"));
                false
            },
        }
    }

    /// Records that the buffer was written to `name`: that is now the file
    /// edited, the buffer counts as unmodified, highlighting is redone for
    /// the name, and the status line says how many lines were written.
    pub fn finish_save(&mut self, name: String)
        ensures
            final(self).status_message@ == "Wrote "@ + decimal(line_count(old(self).text()))
                + " lines"@,
            *final(self) == (Editor {
                filename: Some(name),
                status_message: final(self).status_message,
                status_timed: true,
                status_fresh: true,
                is_modified: false,
                cache_stale: true,
                ..*old(self)
            }),
    {
        self.filename = Some(name);
        self.clear_cache();
        let n = rope_len_lines(&self.buffer);
        let mut v: Vec<char> = Vec::new();
        push_str(&mut v, "Wrote ");
        push_decimal(&mut v, n);
        push_str(&mut v, " lines");
        self.set_status(string_of(&v));
        self.is_modified = false;
    }

    /// The answer to the question of a read: an empty name cancels the
    /// read and says so; returns the name of the file to read, if any.
    pub fn resolve_read_name(&mut self, input: String) -> (r: Option<String>)
        ensures
            input@.len() > 0 ==> r == Some(input) && *final(self) == *old(self),
            input@.len() == 0 ==> r is None && final(self).status_message@ == "Read cancelled."@
                && *final(self) == (Editor {
                status_message: final(self).status_message,
                status_timed: true,
                status_fresh: true,
                ..*old(self)
            }),
    {
        let v = chars_of(input.as_str());
        if v.len() > 0 {
            Some(input)
        } else {
            self.set_status(String::from_str("Read cancelled."));
            None
        }
    }

    /// A request to leave: an unmodified buffer is left at once; for a
    /// modified one, returns that the user must be asked whether to save.
    pub fn request_exit(&mut self) -> (ask: bool)
        ensures
            ask == old(self).is_modified,
            ask ==> *final(self) == *old(self),
            !ask ==> *final(self) == (Editor { should_quit: true, ..*old(self) }),
    {
        if self.is_modified {
            true
        } else {
            self.should_quit = true;
            false
        }
    }

    /// Takes the answer to whether to save before leaving: no leaves, a
    /// cancel stays; yes returns that the buffer must be saved first (and
    /// `finish_exit` called after).
    pub fn resolve_exit(&mut self, answer: Option<bool>) -> (save_first: bool)
        ensures
            save_first == (answer == Some(true)),
            answer == Some(false) ==> *final(self) == (Editor { should_quit: true, ..*old(self) }),
            answer != Some(false) ==> *final(self) == *old(self),
    {
        match answer {
            Some(true) => true,
            Some(false) => {
                self.should_quit = true;
                false
            },
            None => false,
        }
    }

    /// After the save before leaving: leaves when the buffer is no longer
    /// modified (the save went through).
    pub fn finish_exit(&mut self)
        ensures
            *final(self) == (Editor {
                should_quit: old(self).should_quit || !old(self).is_modified,
                ..*old(self)
            }),
    {
        if !self.is_modified {
            self.should_quit = true;
        }
    }

    /// Takes the news that version `version` is out: it is kept for Meta+U
    /// and announced in the status line.
    pub fn announce_update(&mut self, version: String)
        ensures
            final(self).status_message@ == "Press Meta+U (Alt+U) to update xnano to version "@
                + version@,
            *final(self) == (Editor {
                update_version: Some(version),
                status_message: final(self).status_message,
                status_timed: true,
                status_fresh: true,
                ..*old(self)
            }),
    {
        let mut v: Vec<char> = Vec::new();
        push_str(&mut v, "Press Meta+U (Alt+U) to update xnano to version ");
        push_str(&mut v, version.as_str());
        self.update_version = Some(version);
        self.set_status(string_of(&v));
    }
}

/// Whether `a` and `b` are the same text.
fn same_text(a: &str, b: &str) -> (r: bool)
    ensures
        r == (a@ == b@),
{
    let v = chars_of(a);
    let w = chars_of(b);
    crate::config::chars_same(&v, &w)
}

/// The number of lines of `s`, as `str::lines` counts them.
pub fn count_lines(s: &str) -> (n: usize)
    ensures
        n == text_lines(s@).len(),
{
    let t = chars_of(s);
    let mut n: usize = 0;
    let mut open = false;
    let ghost mut cur: Seq<char> = Seq::empty();
    let mut i: usize = 0;
    while i < t.len()
        invariant
            i <= t.len(),
            t@ == s@,
            open == (cur.len() > 0),
            n + (if open { 1int } else { 0int }) <= i,
            text_lines(s@).len() == n + lines_from(t@, i as nat, cur).len(),
        decreases t.len() - i,
    {
        if t[i] == '\n' {
            n = n + 1;
            open = false;
            proof {
                cur = Seq::empty();
            }
        } else {
            open = true;
            proof {
                cur = cur.push(t[i as int]);
            }
        }
        i = i + 1;
    }
    if open {
        n + 1
    } else {
        n
    }
}

/// The file name `path` with a leading `~` (alone, or before a slash or a
/// backslash) standing for the home directory `home`, when that is known.
pub open spec fn tilde_expanded(path: Seq<char>, home: Seq<char>) -> Seq<char> {
    let leading = path == "~"@ || (path.len() >= 2 && path[0] == '~' && (path[1] == '/' || path[1]
        == '\\'));
    if leading && home.len() > 0 {
        home + path.drop_first()
    } else {
        path
    }
}

/// The file name `path` with a leading `~` expanded to the home directory
/// `home` (see `tilde_expanded`).
pub fn expand_tilde(path: &str, home: &str) -> (r: String)
    ensures
        r@ == tilde_expanded(path@, home@),
{
    let p = chars_of(path);
    let h = chars_of(home);
    proof {
        reveal_strlit("~");
    }
    let alone = p.len() == 1 && p[0] == '~';
    let before_sep = p.len() >= 2 && p[0] == '~' && (p[1] == '/' || p[1] == '\\');
    assert(alone == (p@ == "~"@)) by {
        if p@ == "~"@ {
            assert(p@.len() == 1);
        }
        if alone {
            assert(p@ =~= "~"@);
        }
    }
    if (alone || before_sep) && h.len() > 0 {
        let mut v: Vec<char> = Vec::new();
        push_str(&mut v, home);
        let mut i: usize = 1;
        while i < p.len()
            invariant
                1 <= i <= p.len(),
                v@ == h@ + p@.subrange(1, i as int),
            decreases p.len() - i,
        {
            v.push(p[i]);
            i = i + 1;
            assert(v@ =~= h@ + p@.subrange(1, i as int));
        }
        assert(p@.subrange(1, p@.len() as int) =~= p@.drop_first());
        string_of(&v)
    } else {
        string_of(&p)
    }
}

/// Whether a status message shown for `elapsed_ms` milliseconds has
/// expired: after ten seconds.
pub fn status_expired(elapsed_ms: u64) -> (b: bool)
    ensures
        b == (elapsed_ms >= 10000),
{
    elapsed_ms >= 10000
}

/// Whether a status message shown for `elapsed_ms` milliseconds is cleared
/// once no key came: after three seconds.
pub fn status_stale(elapsed_ms: u64) -> (b: bool)
    ensures
        b == (elapsed_ms >= 3000),
{
    elapsed_ms >= 3000
}

/// How long, in milliseconds, to wait for a key: until a status message
/// has been shown for three seconds (at least a millisecond), an hour
/// without one, and at most a quarter second while an update check is under
/// way.
pub open spec fn poll_wait(status_elapsed_ms: Option<u64>, checking_update: bool) -> nat {
    let t: nat = match status_elapsed_ms {
        Some(e) => if e >= 3000 {
            1
        } else {
            (3000 - e) as nat
        },
        None => 3600000,
    };
    if checking_update && t > 250 {
        250
    } else {
        t
    }
}

/// How long, in milliseconds, to wait for a key (see `poll_wait`).
pub fn poll_timeout_ms(status_elapsed_ms: Option<u64>, checking_update: bool) -> (t: u64)
    ensures
        t == poll_wait(status_elapsed_ms, checking_update),
{
    let t: u64 = match status_elapsed_ms {
        Some(e) => if e >= 3000 {
            1
        } else {
            3000 - e
        },
        None => 3600000,
    };
    if checking_update && t > 250 {
        250
    } else {
        t
    }
}

} // verus!
