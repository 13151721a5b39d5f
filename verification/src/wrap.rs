//! Soft-wrap layout of a line: which screen row and column each display
//! cell lands on when a line is wrapped at word boundaries.
//!
//! A line is laid out cell by cell (a tab takes the cells up to the next
//! multiple of 4, any other char one).  A word that would cross the right
//! edge starts a new row; whitespace that would begin a wrapped row (not
//! the line's first char) takes no room.
use vstd::prelude::*;
use crate::text::{char_is_whitespace, is_whitespace};

verus! {

/// The layout state: the row and column where the next cell goes, the row
/// and column found for the target cell, and the display column reached.
pub struct WrapState {
    pub cur_y: nat,
    pub cur_x: nat,
    pub target_y: nat,
    pub target_x: nat,
    pub visual_x: nat,
}

/// The number of non-whitespace chars of `s` from `i` on, up to the next
/// whitespace.
pub open spec fn word_width_from(s: Seq<char>, i: int) -> nat
    decreases s.len() - i,
{
    if 0 <= i < s.len() && !char_is_whitespace(s[i]) {
        word_width_from(s, i + 1) + 1
    } else {
        0
    }
}

/// Records where the cell at display column `st.visual_x` lands, when it is
/// the target: at the start of the next row if the current one is full.
pub open spec fn note_target(st: WrapState, target: Option<nat>, avail: nat) -> WrapState {
    if target == Some(st.visual_x) {
        if st.cur_x >= avail {
            WrapState { target_y: st.cur_y + 1, target_x: 0, ..st }
        } else {
            WrapState { target_y: st.cur_y, target_x: st.cur_x, ..st }
        }
    } else {
        st
    }
}

/// Places `n` cells, wrapping to a new row when the current one is full.
pub open spec fn place_cells(st: WrapState, n: nat, target: Option<nat>, avail: nat) -> WrapState
    decreases n,
{
    if n == 0 {
        st
    } else {
        let s1 = note_target(st, target, avail);
        let s2 = if s1.cur_x >= avail {
            WrapState { cur_y: s1.cur_y + 1, cur_x: 0, ..s1 }
        } else {
            s1
        };
        place_cells(
            WrapState { cur_x: s2.cur_x + 1, visual_x: s2.visual_x + 1, ..s2 },
            (n - 1) as nat,
            target,
            avail,
        )
    }
}

/// Skips `n` cells of whitespace that takes no room, noting the target.
pub open spec fn skip_cells(st: WrapState, n: nat, target: Option<nat>, avail: nat) -> WrapState
    decreases n,
{
    if n == 0 {
        st
    } else {
        let s1 = if target == Some(st.visual_x) {
            WrapState {
                target_y: if st.cur_x >= avail {
                    st.cur_y + 1
                } else {
                    st.cur_y
                },
                target_x: 0,
                ..st
            }
        } else {
            st
        };
        skip_cells(WrapState { visual_x: s1.visual_x + 1, ..s1 }, (n - 1) as nat, target, avail)
    }
}

/// The layout state after the first `i` chars of `s`.
pub open spec fn wrap_state(s: Seq<char>, i: nat, target: Option<nat>, avail: nat) -> WrapState
    decreases i,
{
    if i == 0 || i > s.len() {
        WrapState { cur_y: 0, cur_x: 0, target_y: 0, target_x: 0, visual_x: 0 }
    } else {
        let k = (i - 1) as int;
        let st = wrap_state(s, (i - 1) as nat, target, avail);
        let ch = s[k];
        let starts_word = k > 0 && char_is_whitespace(s[k - 1]) && !char_is_whitespace(ch);
        let cx = if starts_word && st.cur_x > 0 && st.cur_x < avail && st.cur_x
            + word_width_from(s, k) > avail {
            avail
        } else {
            st.cur_x
        };
        let st1 = WrapState { cur_x: cx, ..st };
        let skip = (cx == 0 || cx >= avail) && k > 0 && char_is_whitespace(ch);
        let n: nat = if ch == '\t' {
            (4 - st.visual_x % 4) as nat
        } else {
            1
        };
        if skip {
            skip_cells(st1, n, target, avail)
        } else {
            place_cells(st1, n, target, avail)
        }
    }
}

/// The rows that the line `s` takes wrapped at `avail` columns, and the row
/// and column of the cell at display column `target` (when it lies within
/// the line or just after its end).
pub open spec fn soft_wrap_metrics(s: Seq<char>, target: Option<nat>, avail: nat) -> (
    nat,
    nat,
    nat,
) {
    let st = note_target(wrap_state(s, s.len(), target, avail), target, avail);
    (st.cur_y + 1, st.target_y, st.target_x)
}

/// The layout state held in machine integers.
pub open spec fn state_of(cy: usize, cx: usize, ty: usize, tx: usize, vx: usize) -> WrapState {
    WrapState {
        cur_y: cy as nat,
        cur_x: cx as nat,
        target_y: ty as nat,
        target_x: tx as nat,
        visual_x: vx as nat,
    }
}

/// The width of the word starting at `i`.
fn word_width_at(s: &Vec<char>, i: usize) -> (w: usize)
    requires
        i <= s.len(),
    ensures
        w == word_width_from(s@, i as int),
        w <= s.len() - i,
{
    let mut p = i;
    while p < s.len() && !is_whitespace(s[p])
        invariant
            i <= p <= s.len(),
            word_width_from(s@, i as int) == (p - i) + word_width_from(s@, p as int),
        decreases s.len() - p,
    {
        p += 1;
    }
    p - i
}

/// The rows that the line `s` takes wrapped at `avail` columns, and the row
/// and column at which display column `target` lands.
pub fn get_soft_wrap_metrics(s: &Vec<char>, target: Option<usize>, avail: usize) -> (r: (
    usize,
    usize,
    usize,
))
    requires
        s.len() <= usize::MAX / 16,
        avail <= usize::MAX / 16,
    ensures
        ({
            let t = match target {
                Some(v) => Some(v as nat),
                None => None,
            };
            (r.0 as nat, r.1 as nat, r.2 as nat) == soft_wrap_metrics(s@, t, avail as nat)
        }),
        r.0 <= 4 * s.len() + 1,
        r.1 <= 4 * s.len() + 1,
        r.2 <= avail + 1,
{
    let ghost t: Option<nat> = match target {
        Some(v) => Some(v as nat),
        None => None,
    };
    let mut cy: usize = 0;
    let mut cx: usize = 0;
    let mut ty: usize = 0;
    let mut tx: usize = 0;
    let mut vx: usize = 0;
    let mut i: usize = 0;
    while i < s.len()
        invariant
            i <= s.len() <= usize::MAX / 16,
            avail <= usize::MAX / 16,
            t == (match target {
                Some(v) => Some(v as nat),
                None => None,
            }),
            state_of(cy, cx, ty, tx, vx) == wrap_state(s@, i as nat, t, avail as nat),
            vx <= 4 * i,
            cy <= vx,
            cx <= avail + 1,
            ty <= vx + 1,
            tx <= avail + 1,
        decreases s.len() - i,
    {
        let ch = s[i];
        let starts_word = i > 0 && is_whitespace(s[i - 1]) && !is_whitespace(ch);
        if starts_word && cx > 0 && cx < avail {
            let ww = word_width_at(s, i);
            if cx + ww > avail {
                cx = avail;
            }
        }
        let skip = (cx == 0 || cx >= avail) && i > 0 && is_whitespace(ch);
        let n: usize = if ch == '\t' { 4 - vx % 4 } else { 1 };
        let ghost st1 = state_of(cy, cx, ty, tx, vx);
        let ghost vx0 = vx;
        let mut k: usize = 0;
        if skip {
            while k < n
                invariant
                    k <= n <= 4,
                    vx == vx0 + k,
                    vx0 <= 4 * i,
                    cy <= vx0,
                    cx <= avail + 1,
                    ty <= vx + 1,
                    tx <= avail + 1,
                    avail <= usize::MAX / 16,
                    i < s.len() <= usize::MAX / 16,
                    skip_cells(state_of(cy, cx, ty, tx, vx), (n - k) as nat, t, avail as nat)
                        == skip_cells(st1, n as nat, t, avail as nat),
                    t == (match target {
                        Some(v) => Some(v as nat),
                        None => None,
                    }),
                decreases n - k,
            {
                if target == Some(vx) {
                    ty = if cx >= avail { cy + 1 } else { cy };
                    tx = 0;
                }
                vx += 1;
                k += 1;
            }
        } else {
            while k < n
                invariant
                    k <= n <= 4,
                    vx == vx0 + k,
                    vx0 <= 4 * i,
                    cy <= vx,
                    cx <= avail + 1,
                    ty <= vx + 1,
                    tx <= avail + 1,
                    avail <= usize::MAX / 16,
                    i < s.len() <= usize::MAX / 16,
                    place_cells(state_of(cy, cx, ty, tx, vx), (n - k) as nat, t, avail as nat)
                        == place_cells(st1, n as nat, t, avail as nat),
                    t == (match target {
                        Some(v) => Some(v as nat),
                        None => None,
                    }),
                decreases n - k,
            {
                if target == Some(vx) {
                    if cx >= avail {
                        ty = cy + 1;
                        tx = 0;
                    } else {
                        ty = cy;
                        tx = cx;
                    }
                }
                if cx >= avail {
                    cy += 1;
                    cx = 0;
                }
                cx += 1;
                vx += 1;
                k += 1;
            }
        }
        i += 1;
    }
    if target == Some(vx) {
        if cx >= avail {
            ty = cy + 1;
            tx = 0;
        } else {
            ty = cy;
            tx = cx;
        }
    }
    (cy + 1, ty, tx)
}

} // verus!
