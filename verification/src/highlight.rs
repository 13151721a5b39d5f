//! Syntax highlighting of the buffer's lines: the highlighter cuts a line
//! into coloured pieces, and the pieces give each displayed char its style.
use vstd::prelude::*;
use syntect::easy::HighlightLines;
use syntect::parsing::SyntaxSet;
use crate::config::Rgb;
use crate::editor::Editor;
use crate::lines::{lemma_line_facts, lemma_start_next, line_count, line_start, line_text};
use crate::render::{cell_views, layout_line, line_render, Cell, LineLayout};
use crate::rope::{rope_line_chars, rope_line_to_char, rope_len_lines, rope_text};
use crate::text::{chars_of, string_of};

verus! {

/// The state of a highlighter going through the lines of a file.
#[verifier::external_type_specification]
#[verifier::external_body]
pub struct ExHighlightLines<'a>(HighlightLines<'a>);

/// The syntax definitions a highlighter reads.
#[verifier::external_type_specification]
#[verifier::external_body]
pub struct ExSyntaxSet(SyntaxSet);

/// A piece of a highlighted line: its colours and its text.
pub struct StyledPiece {
    pub fg: Rgb,
    pub bg: Rgb,
    pub text: String,
}

/// The texts of the pieces, one after another.
pub open spec fn pieces_text(v: Seq<StyledPiece>) -> Seq<char>
    decreases v.len(),
{
    if v.len() == 0 {
        Seq::empty()
    } else {
        pieces_text(v.drop_last()) + v.last().text@
    }
}

/// For each char of `pieces_text(v)`, the index of the piece it is in.
pub open spec fn pieces_styles(v: Seq<StyledPiece>) -> Seq<usize>
    decreases v.len(),
{
    if v.len() == 0 {
        Seq::empty()
    } else {
        pieces_styles(v.drop_last()) + Seq::new(v.last().text@.len(), |k: int| (v.len() - 1) as usize)
    }
}

/// `HighlightLines::highlight_line`: highlights the next line of a file,
/// `line`, with `h`'s state, and cuts it into pieces with their foreground
/// and background colours; `None` where parsing fails.  Claimed: the pieces'
/// texts, one after another, make up `line` (as syntect documents of its
/// highlight iterator).  Nothing is claimed of the colours, which depend on
/// the theme and on the lines highlighted before.
#[verifier::external_body]
pub(crate) fn highlight_pieces(h: &mut HighlightLines, line: &str, ss: &SyntaxSet) -> (r: Option<
    Vec<StyledPiece>,
>)
    ensures
        r matches Some(v) ==> pieces_text(v@) == line@,
{
    match h.highlight_line(line, ss) {
        Ok(v) => Some(v.into_iter().map(|(s, t)| StyledPiece {
            fg: Rgb { r: s.foreground.r, g: s.foreground.g, b: s.foreground.b },
            bg: Rgb { r: s.background.r, g: s.background.g, b: s.background.b },
            text: t.to_string(),
        }).collect()),
        Err(_) => None,
    }
}

/// The chars of the pieces, one after another, and for each char the index
/// of its piece.
pub fn line_chars_and_styles(pieces: &Vec<StyledPiece>) -> (r: (Vec<char>, Vec<usize>))
    ensures
        r.0@ == pieces_text(pieces@),
        r.1@ == pieces_styles(pieces@),
{
    let mut chars: Vec<char> = Vec::new();
    let mut styles: Vec<usize> = Vec::new();
    let mut i: usize = 0;
    while i < pieces.len()
        invariant
            i <= pieces.len(),
            chars@ == pieces_text(pieces@.take(i as int)),
            styles@ == pieces_styles(pieces@.take(i as int)),
        decreases pieces.len() - i,
    {
        let t = chars_of(pieces[i].text.as_str());
        let ghost c0 = chars@;
        let ghost s0 = styles@;
        let mut k: usize = 0;
        while k < t.len()
            invariant
                k <= t.len(),
                i < pieces.len(),
                t@ == pieces@[i as int].text@,
                chars@ == c0 + t@.take(k as int),
                styles@ == s0 + Seq::new(k as nat, |j: int| i),
            decreases t.len() - k,
        {
            chars.push(t[k]);
            styles.push(i);
            proof {
                assert(t@.take(k + 1) == t@.take(k as int).push(t@[k as int]));
                assert(Seq::new((k + 1) as nat, |j: int| i) == Seq::new(k as nat, |j: int| i).push(i));
            }
            k = k + 1;
        }
        proof {
            let p = pieces@.take(i + 1);
            assert(p.drop_last() == pieces@.take(i as int));
            assert(p.last() == pieces@[i as int]);
            assert(t@.take(t@.len() as int) == t@);
            assert(Seq::new(t@.len(), |j: int| i) == Seq::new(p.last().text@.len(), |j: int| (p.len() - 1) as usize));
        }
        i = i + 1;
    }
    proof {
        assert(pieces@.take(pieces@.len() as int) == pieces@);
    }
    (chars, styles)
}

impl Editor {
    /// The selected span, smaller end first, while the mark is set (see
    /// `selection_span`).
    pub open spec fn selection_range(&self) -> Option<(usize, usize)> {
        match self.mark {
            Some(m) => {
                let i = self.cursor_index() as usize;
                if m < i {
                    Some((m, i))
                } else {
                    Some((i, m))
                }
            },
            None => None,
        }
    }

    /// The selected span while the mark is set (see `selection_range`).
    pub fn get_selection_range(&self) -> (r: Option<(usize, usize)>)
        requires
            self.wf(),
        ensures
            r == self.selection_range(),
    {
        match self.mark {
            Some(m) => {
                let i = self.get_cursor_char_idx();
                if m < i {
                    Some((m, i))
                } else {
                    Some((i, m))
                }
            },
            None => None,
        }
    }

    /// The span of the search match to highlight on line `y`, if any.
    pub open spec fn search_on_line(&self, y: usize) -> Option<(usize, usize)> {
        match self.highlight_match {
            Some((hy, a, b)) => if hy == y {
                Some((a, b))
            } else {
                None
            },
            None => None,
        }
    }

    /// Highlights line `y` of the buffer with `h`: the pieces make up that
    /// line, line break included.
    pub fn highlight_buffer_line(&self, h: &mut HighlightLines, ss: &SyntaxSet, y: usize) -> (r:
        Option<Vec<StyledPiece>>)
        requires
            y < line_count(self.text()),
        ensures
            r matches Some(v) ==> pieces_text(v@) == line_text(self.text(), y as nat),
    {
        let line = rope_line_chars(&self.buffer, y);
        let s = string_of(&line);
        highlight_pieces(h, s.as_str(), ss)
    }

    /// Whether `pieces` make up line `y` of the buffer (highlighting kept
    /// from before may belong to an older text).
    pub fn pieces_match_line(&self, y: usize, pieces: &Vec<StyledPiece>) -> (b: bool)
        ensures
            b == (y < line_count(self.text()) && pieces_text(pieces@) == line_text(
                self.text(),
                y as nat,
            )),
    {
        let count = rope_len_lines(&self.buffer);
        if y >= count {
            return false;
        }
        let line = rope_line_chars(&self.buffer, y);
        let (chars, _) = line_chars_and_styles(pieces);
        if line.len() != chars.len() {
            return false;
        }
        let mut k: usize = 0;
        while k < line.len()
            invariant
                k <= line.len() == chars.len(),
                line@ == line_text(self.text(), y as nat),
                chars@ == pieces_text(pieces@),
                y < line_count(self.text()),
                forall|j: int| 0 <= j < k ==> line@[j] == chars@[j],
            decreases line.len() - k,
        {
            if line[k] != chars[k] {
                proof {
                    assert(line@[k as int] != chars@[k as int]);
                }
                return false;
            }
            k = k + 1;
        }
        proof {
            assert(line@ =~= chars@);
        }
        true
    }

    /// The cells of line `y` on a screen `avail` columns wide (see
    /// `line_render`): its chars with the style of the highlighted piece
    /// each is in, the selection and the search match marked.
    pub fn layout_buffer_line(&self, y: usize, pieces: &Vec<StyledPiece>, avail: usize) -> (r: (
        Vec<Cell>,
        usize,
        usize,
    ))
        requires
            self.wf(),
            self.within_limits(),
            y < line_count(self.text()),
            pieces_text(pieces@) == line_text(self.text(), y as nat),
            avail <= usize::MAX / 2,
        ensures
            (cell_views(r.0@), r.1 as nat, r.2 as nat) == line_render(
                LineLayout {
                    text: line_text(self.text(), y as nat),
                    styles: pieces_styles(pieces@),
                    line_start: line_start(self.text(), y as nat),
                    selection: self.selection_range(),
                    search: self.search_on_line(y),
                    soft_wrap: self.soft_wrap,
                    avail: avail as nat,
                    col_offset: self.col_offset as nat,
                },
            ),
    {
        let (chars, styles) = line_chars_and_styles(pieces);
        let start = rope_line_to_char(&self.buffer, y);
        proof {
            lemma_line_facts(self.text());
            lemma_start_next(self.text(), y as nat);
        }
        let selection = self.get_selection_range();
        let search = match self.highlight_match {
            Some((hy, a, b)) => if hy == y {
                Some((a, b))
            } else {
                None
            },
            None => None,
        };
        layout_line(&chars, &styles, start, selection, search, self.soft_wrap, avail, self.col_offset)
    }
}

} // verus!
