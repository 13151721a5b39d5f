//! The text buffer: `ropey::Rope`, with the contracts of the calls that the
//! editor makes on it.  What a rope holds is named `rope_text`; each wrapper
//! says what its call does to that text or reads from it, following ropey's
//! documentation (char indices throughout; lines as `crate::lines` states).
use vstd::prelude::*;
use ropey::Rope;
use crate::lines::{line_count, line_of, line_start, line_text};

verus! {

#[verifier::external_type_specification]
#[verifier::external_body]
pub struct ExRope(ropey::Rope);

/// The chars that a rope holds, in order.
pub uninterp spec fn rope_text(r: Rope) -> Seq<char>;

/// `Rope::from_str`: a rope holding the chars of `s`.
#[verifier::external_body]
pub(crate) fn rope_from_str(s: &str) -> (r: Rope)
    ensures
        rope_text(r) == s@,
{
    Rope::from_str(s)
}

/// `Clone::clone` on a rope: a rope with the same chars.
#[verifier::external_body]
pub(crate) fn rope_clone(r: &Rope) -> (c: Rope)
    ensures
        rope_text(c) == rope_text(*r),
{
    r.clone()
}

/// `Rope::len_chars`: the number of chars.
#[verifier::external_body]
pub(crate) fn rope_len_chars(r: &Rope) -> (n: usize)
    ensures
        n == rope_text(*r).len(),
{
    r.len_chars()
}

/// `Rope::len_lines`: the number of lines (one more than the number of line
/// breaks).
#[verifier::external_body]
pub(crate) fn rope_len_lines(r: &Rope) -> (n: usize)
    ensures
        n == line_count(rope_text(*r)),
{
    r.len_lines()
}

/// `Rope::line_to_char`: the char index at which line `y` begins; for one
/// past the last line, the length of the text.  Panics beyond that.
#[verifier::external_body]
pub(crate) fn rope_line_to_char(r: &Rope, y: usize) -> (i: usize)
    requires
        y <= line_count(rope_text(*r)),
    ensures
        i == line_start(rope_text(*r), y as nat),
{
    r.line_to_char(y)
}

/// `Rope::char_to_line`: the line on which char index `i` lies (the number
/// of line breaks before it).  Panics for `i > len_chars()`.
#[verifier::external_body]
pub(crate) fn rope_char_to_line(r: &Rope, i: usize) -> (y: usize)
    requires
        i <= rope_text(*r).len(),
    ensures
        y == line_of(rope_text(*r), i as nat),
{
    r.char_to_line(i)
}

/// `Rope::char`: the char at index `i`.  Panics for `i >= len_chars()`.
#[verifier::external_body]
pub(crate) fn rope_char(r: &Rope, i: usize) -> (c: char)
    requires
        i < rope_text(*r).len(),
    ensures
        c == rope_text(*r)[i as int],
{
    r.char(i)
}

/// `Rope::insert`: inserts the chars of `s` before char index `i`.  Panics
/// for `i > len_chars()`.
#[verifier::external_body]
pub(crate) fn rope_insert(r: &mut Rope, i: usize, s: &str)
    requires
        i <= rope_text(*old(r)).len(),
        rope_text(*old(r)).len() + s@.len() <= usize::MAX,
    ensures
        rope_text(*final(r)) == rope_text(*old(r)).subrange(0, i as int) + s@ + rope_text(
            *old(r),
        ).subrange(i as int, rope_text(*old(r)).len() as int),
{
    r.insert(i, s)
}

/// `Rope::insert_char`: inserts `c` before char index `i`.  Panics for
/// `i > len_chars()`.
#[verifier::external_body]
pub(crate) fn rope_insert_char(r: &mut Rope, i: usize, c: char)
    requires
        i <= rope_text(*old(r)).len(),
        rope_text(*old(r)).len() + 1 <= usize::MAX,
    ensures
        rope_text(*final(r)) == rope_text(*old(r)).subrange(0, i as int) + seq![c] + rope_text(
            *old(r),
        ).subrange(i as int, rope_text(*old(r)).len() as int),
{
    r.insert_char(i, c)
}

/// `Rope::remove`: removes the chars at indices `a..b`.  Panics unless
/// `a <= b <= len_chars()`.
#[verifier::external_body]
pub(crate) fn rope_remove(r: &mut Rope, a: usize, b: usize)
    requires
        a <= b <= rope_text(*old(r)).len(),
    ensures
        rope_text(*final(r)) == rope_text(*old(r)).subrange(0, a as int) + rope_text(
            *old(r),
        ).subrange(b as int, rope_text(*old(r)).len() as int),
{
    r.remove(a..b)
}

/// `Rope::slice` followed by `to_string`: the chars at indices `a..b` as a
/// string.  Panics unless `a <= b <= len_chars()`.
#[verifier::external_body]
pub(crate) fn rope_slice_string(r: &Rope, a: usize, b: usize) -> (s: String)
    requires
        a <= b <= rope_text(*r).len(),
    ensures
        s@ == rope_text(*r).subrange(a as int, b as int),
{
    r.slice(a..b).to_string()
}

/// `Rope::line` followed by collecting its chars: the chars of line `y`,
/// its line break included.  Panics for `y >= len_lines()`.
#[verifier::external_body]
pub(crate) fn rope_line_chars(r: &Rope, y: usize) -> (v: Vec<char>)
    requires
        y < line_count(rope_text(*r)),
    ensures
        v@ == line_text(rope_text(*r), y as nat),
{
    r.line(y).chars().collect()
}

/// `ToString::to_string` on a rope: all of its chars as a string.
#[verifier::external_body]
pub(crate) fn rope_to_string(r: &Rope) -> (s: String)
    ensures
        s@ == rope_text(*r),
{
    r.to_string()
}

} // verus!
