//! How a line of the buffer is laid out on the screen: which chars are
//! shown, in which screen row of the line and in which style, and which are
//! highlighted as part of the selection or of a search match.
use vstd::prelude::*;
use crate::text::{
    char_is_whitespace, chars_of, decimal, decimal_chars, is_whitespace, lemma_decimal_len_bound,
    push_str, string_of,
};
use crate::justify::{utf8_len, utf8_len_of};
use crate::ui::{no_breaks, push_spaces, spaces, without_breaks};

verus! {

/// A screen cell of a line: the row of the line it lands on (0 unless the
/// line is wrapped), the char shown, the style of the text it comes from,
/// and whether it is highlighted.
#[derive(PartialEq, Eq, Structural, Clone, Copy, Debug)]
pub struct Cell {
    pub row: usize,
    pub ch: char,
    pub style: usize,
    pub highlighted: bool,
}

/// A cell as plain values.
pub type CellView = (nat, char, usize, bool);

/// The cells as plain values.
pub open spec fn cell_views(v: Seq<Cell>) -> Seq<CellView> {
    v.map_values(|c: Cell| (c.row as nat, c.ch, c.style, c.highlighted))
}

/// What the layout of a line depends on: its chars (line break included),
/// the style of each, the char index where the line begins, the selection
/// (as char indices of the text), a search match on this line (as char
/// indices of the line, which then takes the place of the selection),
/// whether lines wrap, the width available for text, and (without
/// wrapping) the first display column shown.
pub struct LineLayout {
    pub text: Seq<char>,
    pub styles: Seq<usize>,
    pub line_start: nat,
    pub selection: Option<(usize, usize)>,
    pub search: Option<(usize, usize)>,
    pub soft_wrap: bool,
    pub avail: nat,
    pub col_offset: nat,
}

/// The state of the layout: the cells placed in the current row, the
/// display column reached, the current row, and the cells so far.
pub struct RenderState {
    pub printed: nat,
    pub visual_x: nat,
    pub row: nat,
    pub cells: Seq<CellView>,
}

/// The number of chars of `s` from `i` on up to the next whitespace.
pub open spec fn word_len_from(s: Seq<char>, i: int) -> nat
    decreases s.len() - i,
{
    if 0 <= i < s.len() && !char_is_whitespace(s[i]) {
        word_len_from(s, i + 1) + 1
    } else {
        0
    }
}

/// The char at index `i` of the line is highlighted: it lies in the search
/// match when there is one on this line, else in the selection.
pub open spec fn is_highlighted(p: LineLayout, i: nat) -> bool {
    match p.search {
        Some((a, b)) => a <= i < b,
        None => match p.selection {
            Some((a, b)) => a <= p.line_start + i < b,
            None => false,
        },
    }
}

/// Places `n` display cells of the char `ch` (spaces for a tab): with
/// wrapping each goes on the current row, or starts the next one when the
/// row is full; without, only those from the first column shown on, as far
/// as the width allows.
pub open spec fn emit(
    p: LineLayout,
    st: RenderState,
    n: nat,
    ch: char,
    style: usize,
    hl: bool,
) -> RenderState
    decreases n,
{
    if n == 0 {
        st
    } else {
        let shown = if ch == '\t' {
            ' '
        } else {
            ch
        };
        let next = if p.soft_wrap {
            let (row, printed) = if st.printed >= p.avail {
                (st.row + 1, 0nat)
            } else {
                (st.row, st.printed)
            };
            RenderState {
                printed: printed + 1,
                visual_x: st.visual_x + 1,
                row,
                cells: st.cells.push((row, shown, style, hl)),
            }
        } else if st.visual_x >= p.col_offset && st.printed < p.avail {
            RenderState {
                printed: st.printed + 1,
                visual_x: st.visual_x + 1,
                row: st.row,
                cells: st.cells.push((st.row, shown, style, hl)),
            }
        } else {
            RenderState { visual_x: st.visual_x + 1, ..st }
        };
        emit(p, next, (n - 1) as nat, ch, style, hl)
    }
}

/// The layout state after the first `i` chars of the line: line breaks
/// take no room; with wrapping, whitespace that would begin a wrapped row
/// (not the line's first char) takes none either, and a word that would
/// cross the right edge starts a new row; a tab takes the cells up to the
/// next multiple of 4.
pub open spec fn render_state(p: LineLayout, i: nat) -> RenderState
    decreases i,
{
    if i == 0 || i > p.text.len() {
        RenderState { printed: 0, visual_x: 0, row: 0, cells: Seq::empty() }
    } else {
        let k = (i - 1) as nat;
        let st = render_state(p, k);
        let ch = p.text[k as int];
        let lc = no_breaks(p.text);
        if ch == '\n' || ch == '\r' {
            st
        } else if p.soft_wrap && (st.printed == 0 || st.printed >= p.avail) && k > 0
            && char_is_whitespace(ch) {
            st
        } else {
            let starts_word = k > 0 && k - 1 < lc.len() && char_is_whitespace(lc[k - 1])
                && !char_is_whitespace(ch);
            let printed = if p.soft_wrap && st.printed > 0 && st.printed < p.avail && starts_word
                && st.printed + word_len_from(lc, k as int) > p.avail {
                p.avail
            } else {
                st.printed
            };
            let n: nat = if ch == '\t' {
                (4 - st.visual_x % 4) as nat
            } else {
                1
            };
            let style = if k < p.styles.len() {
                p.styles[k as int]
            } else {
                0
            };
            emit(p, RenderState { printed, ..st }, n, ch, style, is_highlighted(p, k))
        }
    }
}

/// The layout of the whole line: its cells, the rows it takes, and the
/// display column reached at its end.
pub open spec fn line_render(p: LineLayout) -> (Seq<CellView>, nat, nat) {
    let st = render_state(p, p.text.len());
    (st.cells, st.row + 1, st.visual_x)
}

/// The number of chars of `s` from `k` on up to the next whitespace (see
/// `word_len_from`).
fn word_len(s: &Vec<char>, k: usize) -> (n: usize)
    requires
        k <= s.len(),
    ensures
        n == word_len_from(s@, k as int),
        n <= s.len() - k,
{
    let mut j = k;
    while j < s.len() && !is_whitespace(s[j])
        invariant
            k <= j <= s.len(),
            word_len_from(s@, k as int) == (j - k) + word_len_from(s@, j as int),
        decreases s.len() - j,
    {
        j = j + 1;
    }
    j - k
}

/// Whether the char at index `i` of the line is highlighted (see
/// `is_highlighted`).
fn highlighted_at(
    line_start: usize,
    selection: Option<(usize, usize)>,
    search: Option<(usize, usize)>,
    i: usize,
) -> (b: bool)
    requires
        line_start + i <= usize::MAX,
    ensures
        b == match search {
            Some((a, e)) => a <= i < e,
            None => match selection {
                Some((a, e)) => a <= line_start + i < e,
                None => false,
            },
        },
{
    match search {
        Some((a, e)) => a <= i && i < e,
        None => match selection {
            Some((a, e)) => a <= line_start + i && line_start + i < e,
            None => false,
        },
    }
}

/// The layout of a line on the screen (see `line_render`): its cells, the
/// rows it takes, and the display column reached at its end.
pub fn layout_line(
    text: &Vec<char>,
    styles: &Vec<usize>,
    line_start: usize,
    selection: Option<(usize, usize)>,
    search: Option<(usize, usize)>,
    soft_wrap: bool,
    avail: usize,
    col_offset: usize,
) -> (r: (Vec<Cell>, usize, usize))
    requires
        text.len() <= usize::MAX / 16,
        avail <= usize::MAX / 2,
        line_start + text.len() <= usize::MAX,
    ensures
        ({
            let p = LineLayout {
                text: text@,
                styles: styles@,
                line_start: line_start as nat,
                selection,
                search,
                soft_wrap,
                avail: avail as nat,
                col_offset: col_offset as nat,
            };
            (cell_views(r.0@), r.1 as nat, r.2 as nat) == line_render(p)
        }),
{
    let ghost p = LineLayout {
        text: text@,
        styles: styles@,
        line_start: line_start as nat,
        selection,
        search,
        soft_wrap,
        avail: avail as nat,
        col_offset: col_offset as nat,
    };
    let lc = without_breaks(text);
    let mut cells: Vec<Cell> = Vec::new();
    let mut printed: usize = 0;
    let mut visual_x: usize = 0;
    let mut row: usize = 0;
    let mut i: usize = 0;
    while i < text.len()
        invariant
            i <= text.len() <= usize::MAX / 16,
            avail <= usize::MAX / 2,
            line_start + text.len() <= usize::MAX,
            lc@ == no_breaks(text@),
            lc@.len() <= text@.len(),
            p == (LineLayout {
                text: text@,
                styles: styles@,
                line_start: line_start as nat,
                selection,
                search,
                soft_wrap,
                avail: avail as nat,
                col_offset: col_offset as nat,
            }),
            visual_x <= 4 * i,
            printed <= avail + visual_x,
            row <= visual_x,
            ({
                let st = render_state(p, i as nat);
                &&& st.printed == printed
                &&& st.visual_x == visual_x
                &&& st.row == row
                &&& st.cells == cell_views(cells@)
            }),
        decreases text.len() - i,
    {
        let ch = text[i];
        let k = i;
        i = i + 1;
        if ch == '\n' || ch == '\r' {
            continue;
        }
        if soft_wrap && (printed == 0 || printed >= avail) && k > 0 && is_whitespace(ch) {
            continue;
        }
        let starts_word = k > 0 && k - 1 < lc.len() && is_whitespace(lc[k - 1]) && !is_whitespace(
            ch,
        );
        if soft_wrap && printed > 0 && printed < avail && starts_word && k <= lc.len() {
            let w = word_len(&lc, k);
            if printed + w > avail {
                printed = avail;
            }
        }
        proof {
            if !(k <= lc@.len()) {
                assert(!starts_word);
            }
        }
        let n: usize = if ch == '\t' {
            4 - visual_x % 4
        } else {
            1
        };
        let style = if k < styles.len() {
            styles[k]
        } else {
            0
        };
        let hl = highlighted_at(line_start, selection, search, k);
        let shown = if ch == '\t' {
            ' '
        } else {
            ch
        };
        let ghost st0 = RenderState {
            printed: printed as nat,
            visual_x: visual_x as nat,
            row: row as nat,
            cells: cell_views(cells@),
        };
        assert(render_state(p, i as nat) == emit(p, st0, n as nat, ch, style, hl));
        let mut j: usize = 0;
        while j < n
            invariant
                j <= n <= 4,
                visual_x <= 4 * k + j,
                avail <= usize::MAX / 2,
                k < text.len() <= usize::MAX / 16,
                printed <= avail + visual_x,
                row <= visual_x,
                p.soft_wrap == soft_wrap,
                p.avail == avail,
                p.col_offset == col_offset,
                shown == (if ch == '\t' {
                    ' '
                } else {
                    ch
                }),
                emit(p, st0, n as nat, ch, style, hl) == emit(
                    p,
                    RenderState {
                        printed: printed as nat,
                        visual_x: visual_x as nat,
                        row: row as nat,
                        cells: cell_views(cells@),
                    },
                    (n - j) as nat,
                    ch,
                    style,
                    hl,
                ),
            decreases n - j,
        {
            if soft_wrap {
                if printed >= avail {
                    row = row + 1;
                    printed = 0;
                }
                let ghost before = cells@;
                cells.push(Cell { row, ch: shown, style, highlighted: hl });
                assert(cell_views(cells@) =~= cell_views(before).push(
                    (row as nat, shown, style, hl),
                ));
                printed = printed + 1;
            } else if visual_x >= col_offset && printed < avail {
                let ghost before = cells@;
                cells.push(Cell { row, ch: shown, style, highlighted: hl });
                assert(cell_views(cells@) =~= cell_views(before).push(
                    (row as nat, shown, style, hl),
                ));
                printed = printed + 1;
            }
            visual_x = visual_x + 1;
            j = j + 1;
        }
    }
    (cells, row + 1, visual_x)
}

/// The line number `n` right-aligned in `width` columns, then a space.
pub open spec fn line_number_label(n: nat, width: nat) -> Seq<char> {
    let d = decimal(n);
    spaces(if d.len() < width {
        (width - d.len()) as nat
    } else {
        0
    }) + d + " "@
}

/// The line number `n` right-aligned in `width` columns, then a space
/// (see `line_number_label`).
pub fn line_number_text(n: usize, width: usize) -> (s: String)
    ensures
        s@ == line_number_label(n as nat, width as nat),
{
    let d = decimal_chars(n);
    let mut v: Vec<char> = Vec::new();
    let pad = if d.len() < width {
        width - d.len()
    } else {
        0
    };
    push_spaces(&mut v, pad);
    let mut i: usize = 0;
    while i < d.len()
        invariant
            i <= d.len(),
            v@ == spaces(pad as nat) + d@.take(i as int),
        decreases d.len() - i,
    {
        v.push(d[i]);
        i = i + 1;
        assert(v@ =~= spaces(pad as nat) + d@.take(i as int));
    }
    assert(d@.take(d.len() as int) =~= d@);
    push_str(&mut v, " ");
    string_of(&v)
}

/// The segments that list spelling suggestions: each one's number in the
/// accent colour, then the suggestion in the text colour.
pub open spec fn suggestion_segments(sugs: Seq<Seq<char>>) -> Seq<(Seq<char>, bool)>
    decreases sugs.len(),
{
    if sugs.len() == 0 {
        Seq::empty()
    } else {
        suggestion_segments(sugs.drop_last()) + seq![
            (decimal(sugs.len()), true),
            (" "@ + sugs.last() + "   "@, false),
        ]
    }
}

/// The number of bytes the segments take in UTF-8.
pub open spec fn segments_len(segs: Seq<(Seq<char>, bool)>) -> nat
    decreases segs.len(),
{
    if segs.len() == 0 {
        0
    } else {
        segments_len(segs.drop_last()) + utf8_len(segs.last().0)
    }
}

/// The status line on a screen `cols` wide, as segments of text, each
/// marked whether it is in the accent colour: while spelling is checked,
/// the suggestions (or that there are none); then the message; then spaces
/// to the end of the line.
pub open spec fn status_segments_spec(
    spelling: bool,
    sugs: Seq<Seq<char>>,
    message: Seq<char>,
    cols: nat,
) -> Seq<(Seq<char>, bool)> {
    let pre = if spelling {
        if sugs.len() > 0 {
            suggestion_segments(sugs)
        } else {
            seq![("No suggestions   "@, false)]
        }
    } else {
        Seq::empty()
    };
    let body = pre.push((message, true));
    let used = segments_len(body);
    body.push((spaces(if used < cols { (cols - used) as nat } else { 0 }), true))
}

/// The texts of the segments, as plain values.
pub open spec fn segment_views(v: Seq<(String, bool)>) -> Seq<(Seq<char>, bool)> {
    v.map_values(|x: (String, bool)| (x.0@, x.1))
}

/// The texts of the suggestions, as plain values.
pub open spec fn text_views(v: Seq<String>) -> Seq<Seq<char>> {
    v.map_values(|x: String| x@)
}

/// Appends a segment and adds its length in bytes to `used`, saturating.
fn push_segment(segs: &mut Vec<(String, bool)>, used: &mut usize, text: Vec<char>, accent: bool)
    requires
        text@.len() <= usize::MAX / 8,
    ensures
        segment_views(final(segs)@) == segment_views(old(segs)@).push((text@, accent)),
        *final(used) == if *old(used) + utf8_len(text@) <= usize::MAX {
            (*old(used) + utf8_len(text@)) as usize
        } else {
            usize::MAX
        },
{
    let n = utf8_len_of(&text, 0, text.len());
    assert(text@.subrange(0, text@.len() as int) =~= text@);
    *used = used.saturating_add(n);
    let ghost before = segs@;
    segs.push((string_of(&text), accent));
    assert(segment_views(segs@) =~= segment_views(before).push((text@, accent)));
}

/// The status line on a screen `cols` wide (see `status_segments_spec`).
pub fn status_segments(spelling: bool, sugs: &Vec<String>, message: &str, cols: u16) -> (r: Vec<
    (String, bool),
>)
    requires
        message@.len() <= usize::MAX / 8,
        sugs@.len() <= usize::MAX / 16,
        forall|i: int| 0 <= i < sugs@.len() ==> (#[trigger] sugs@[i])@.len() <= usize::MAX / 16,
    ensures
        segment_views(r@) == status_segments_spec(spelling, text_views(sugs@), message@, cols as nat),
{
    let mut segs: Vec<(String, bool)> = Vec::new();
    let mut used: usize = 0;
    let ghost sv = text_views(sugs@);
    proof {
        reveal_strlit(" ");
        reveal_strlit("   ");
        reveal_strlit("No suggestions   ");
        assert(segment_views(segs@) =~= Seq::<(Seq<char>, bool)>::empty());
        assert(sv.take(0) =~= Seq::<Seq<char>>::empty());
    }
    if spelling {
        if sugs.len() > 0 {
            let mut i: usize = 0;
            while i < sugs.len()
                invariant
                    i <= sugs.len() <= usize::MAX / 16,
                    sv == text_views(sugs@),
                    forall|q: int| 0 <= q < sugs@.len() ==> (#[trigger] sugs@[q])@.len() <= usize::MAX / 16,
                    segment_views(segs@) == suggestion_segments(sv.take(i as int)),
                    used == if segments_len(segment_views(segs@)) <= usize::MAX {
                        segments_len(segment_views(segs@))
                    } else {
                        usize::MAX as nat
                    },
                decreases sugs.len() - i,
            {
                let ghost before = segment_views(segs@);
                let num = decimal_chars(i + 1);
                proof {
                    lemma_decimal_len_bound((i + 1) as nat);
                }
                push_segment(&mut segs, &mut used, num, true);
                assert(sugs@[i as int]@.len() <= usize::MAX / 16);
                proof {
                    reveal_strlit(" ");
                    reveal_strlit("   ");
                }
                let mut t: Vec<char> = Vec::new();
                push_str(&mut t, " ");
                push_str(&mut t, sugs[i].as_str());
                push_str(&mut t, "   ");
                push_segment(&mut segs, &mut used, t, false);
                proof {
                    let taken = sv.take(i + 1int);
                    assert(taken.drop_last() =~= sv.take(i as int));
                    assert(taken.last() == sugs@[i as int]@);
                    assert(segment_views(segs@) =~= before + seq![
                        (decimal((i + 1) as nat), true),
                        (" "@ + sugs@[i as int]@ + "   "@, false),
                    ]);
                    lemma_segments_len_push(before, (decimal((i + 1) as nat), true));
                    lemma_segments_len_push(
                        before.push((decimal((i + 1) as nat), true)),
                        (" "@ + sugs@[i as int]@ + "   "@, false),
                    );
                    assert(before.push((decimal((i + 1) as nat), true)).push(
                        (" "@ + sugs@[i as int]@ + "   "@, false),
                    ) =~= segment_views(segs@));
                }
                i = i + 1;
            }
            assert(sv.take(sugs.len() as int) =~= sv);
        } else {
            let mut t: Vec<char> = Vec::new();
            push_str(&mut t, "No suggestions   ");
            push_segment(&mut segs, &mut used, t, false);
            proof {
                lemma_segments_len_push(Seq::empty(), ("No suggestions   "@, false));
                assert(Seq::<(Seq<char>, bool)>::empty().push(("No suggestions   "@, false))
                    =~= seq![("No suggestions   "@, false)]);
            }
        }
    }
    let ghost pre = segment_views(segs@);
    let m = chars_of(message);
    push_segment(&mut segs, &mut used, m, true);
    proof {
        lemma_segments_len_push(pre, (message@, true));
    }
    let ghost body = segment_views(segs@);
    assert(body == pre.push((message@, true)));
    let c = cols as usize;
    let fill = if used < c {
        c - used
    } else {
        0
    };
    let mut f: Vec<char> = Vec::new();
    push_spaces(&mut f, fill);
    push_segment(&mut segs, &mut used, f, true);
    assert(segment_views(segs@) == body.push((spaces(fill as nat), true)));
    segs
}

/// The length of segments with one more.
proof fn lemma_segments_len_push(segs: Seq<(Seq<char>, bool)>, x: (Seq<char>, bool))
    ensures
        segments_len(segs.push(x)) == segments_len(segs) + utf8_len(x.0),
{
    assert(segs.push(x).drop_last() =~= segs);
}

} // verus!
