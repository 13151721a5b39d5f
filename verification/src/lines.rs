//! The line structure of a text, as a rope of chars sees it.
//!
//! Lines begin at the start of the text and right after each line break.
//! The line breaks are LF, VT, FF, CR, NEL, LINE SEPARATOR and PARAGRAPH
//! SEPARATOR; a CR directly followed by an LF forms one break that ends
//! after the LF.  A break belongs to the line that it ends.
use vstd::prelude::*;

verus! {

/// A char that ends a line (on its own, or as the first half of CR LF).
pub open spec fn is_line_break(c: char) -> bool {
    c == '\n' || c == '\x0B' || c == '\x0C' || c == '\r' || c == '\u{85}' || c == '\u{2028}'
        || c == '\u{2029}'
}

/// Position `p` of `t` (with `0 < p <= t.len()`) is the first position of a
/// line: the char before it ends a line break.
pub open spec fn opens_line(t: Seq<char>, p: int) -> bool {
    &&& 0 < p <= t.len()
    &&& is_line_break(t[p - 1])
    &&& !(t[p - 1] == '\r' && p < t.len() && t[p] == '\n')
}

/// The positions in `0..=i` at which a line begins, in increasing order.
pub open spec fn starts_through(t: Seq<char>, i: nat) -> Seq<nat>
    decreases i,
{
    if i == 0 {
        seq![0nat]
    } else {
        let prev = starts_through(t, (i - 1) as nat);
        if opens_line(t, i as int) {
            prev.push(i)
        } else {
            prev
        }
    }
}

/// The positions at which the lines of `t` begin.
pub open spec fn line_starts(t: Seq<char>) -> Seq<nat> {
    starts_through(t, t.len())
}

/// The number of lines of `t` (an empty text has one, empty, line).
pub open spec fn line_count(t: Seq<char>) -> nat {
    line_starts(t).len()
}

/// The position at which line `y` begins; one past the last line, the end
/// of the text.
pub open spec fn line_start(t: Seq<char>, y: nat) -> nat {
    if y < line_count(t) {
        line_starts(t)[y as int]
    } else {
        t.len()
    }
}

/// The line on which position `i` (with `i <= t.len()`) lies.
pub open spec fn line_of(t: Seq<char>, i: nat) -> nat {
    (starts_through(t, i).len() - 1) as nat
}

/// The chars of line `y`, its line break included.
pub open spec fn line_text(t: Seq<char>, y: nat) -> Seq<char> {
    t.subrange(line_start(t, y) as int, line_start(t, (y + 1) as nat) as int)
}

/// The length of a line without its trailing LF and then without a
/// trailing CR.
pub open spec fn content_len(line: Seq<char>) -> nat {
    let a: nat = if line.len() > 0 && line[line.len() - 1] == '\n' {
        (line.len() - 1) as nat
    } else {
        line.len()
    };
    if a > 0 && line[a - 1] == '\r' {
        (a - 1) as nat
    } else {
        a
    }
}

/// The length of line `y` without its line break.
pub open spec fn line_len_of(t: Seq<char>, y: nat) -> nat {
    if y < line_count(t) {
        content_len(line_text(t, y))
    } else {
        0
    }
}

/// The cursor at offset `x` of line `y` lies within `t`: on an existing
/// line, or at the start of the line just past the last one (where an
/// Enter after a lone CR at the end of the text leaves it), which stands
/// for the end of the text.
pub open spec fn cursor_ok(t: Seq<char>, x: nat, y: nat) -> bool {
    ||| y < line_count(t) && line_start(t, y) + x <= t.len()
    ||| y == line_count(t) && x == 0
}

/// The width of `s` on screen: a tab advances to the next multiple of 4,
/// any other char by one; with `skip_breaks`, CR and LF take no room.
pub open spec fn display_width(s: Seq<char>, skip_breaks: bool) -> nat
    decreases s.len(),
{
    if s.len() == 0 {
        0
    } else {
        let w = display_width(s.drop_last(), skip_breaks);
        let c = s.last();
        if skip_breaks && (c == '\n' || c == '\r') {
            w
        } else if c == '\t' {
            (w + 4 - w % 4) as nat
        } else {
            w + 1
        }
    }
}

/// A display width is at most four columns per char.
#[verifier::spinoff_prover]
pub proof fn lemma_display_width_bound(s: Seq<char>, skip_breaks: bool)
    ensures
        display_width(s, skip_breaks) <= 4 * s.len(),
    decreases s.len(),
{
    if s.len() > 0 {
        lemma_display_width_bound(s.drop_last(), skip_breaks);
    }
}

/// The basic shape of `starts_through`: it begins with 0, increases
/// strictly, holds only positions that open a line, and holds every such
/// position up to `i`.
#[verifier::spinoff_prover]
pub proof fn lemma_starts_shape(t: Seq<char>, i: nat)
    ensures
        starts_through(t, i).len() >= 1,
        starts_through(t, i)[0] == 0,
        forall|a: int, b: int|
            0 <= a < b < starts_through(t, i).len() ==> starts_through(t, i)[a] < starts_through(
                t,
                i,
            )[b],
        forall|a: int|
            0 < a < starts_through(t, i).len() ==> opens_line(t, starts_through(t, i)[a] as int),
        forall|a: int| 0 <= a < starts_through(t, i).len() ==> starts_through(t, i)[a] <= i,
        forall|p: int|
            0 < p <= i && opens_line(t, p) ==> starts_through(t, i).contains(p as nat),
        forall|p: int|
            starts_through(t, i).last() < p <= i ==> !opens_line(t, p),
    decreases i,
{
    if i > 0 {
        lemma_starts_shape(t, (i - 1) as nat);
        let prev = starts_through(t, (i - 1) as nat);
        let cur = starts_through(t, i);
        if opens_line(t, i as int) {
            assert(cur.last() == i);
            assert forall|p: int| 0 < p <= i && opens_line(t, p) implies cur.contains(p as nat) by {
                if p < i {
                    assert(prev.contains(p as nat));
                    let w = choose|w: int| 0 <= w < prev.len() && prev[w] == p as nat;
                    assert(cur[w] == p as nat);
                } else {
                    assert(cur[cur.len() - 1] == p as nat);
                }
            }
        } else {
            assert forall|p: int| 0 < p <= i && opens_line(t, p) implies cur.contains(p as nat) by {
                assert(prev.contains(p as nat));
            }
        }
    }
}

/// `starts_through(t, j)` is a prefix of `starts_through(t, i)` for `j <= i`;
/// the later entries lie beyond `j`.
#[verifier::spinoff_prover]
pub proof fn lemma_starts_prefix(t: Seq<char>, j: nat, i: nat)
    requires
        j <= i,
    ensures
        starts_through(t, j).len() <= starts_through(t, i).len(),
        starts_through(t, i).subrange(0, starts_through(t, j).len() as int) == starts_through(t, j),
        forall|a: int|
            starts_through(t, j).len() <= a < starts_through(t, i).len() ==> starts_through(
                t,
                i,
            )[a] > j,
    decreases i - j,
{
    if j < i {
        lemma_starts_prefix(t, j, (i - 1) as nat);
        let mid = starts_through(t, (i - 1) as nat);
        let cur = starts_through(t, i);
        if opens_line(t, i as int) {
            assert(cur.subrange(0, mid.len() as int) == mid);
            assert(cur.subrange(0, starts_through(t, j).len() as int) == mid.subrange(
                0,
                starts_through(t, j).len() as int,
            ));
        }
    }
}

/// Two texts that agree on which positions up to `j` open a line have the
/// same line starts up to `j`.
#[verifier::spinoff_prover]
pub proof fn lemma_starts_agree(t1: Seq<char>, t2: Seq<char>, j: nat)
    requires
        forall|p: int| 0 < p <= j ==> opens_line(t1, p) == opens_line(t2, p),
    ensures
        starts_through(t1, j) == starts_through(t2, j),
    decreases j,
{
    if j > 0 {
        lemma_starts_agree(t1, t2, (j - 1) as nat);
    }
}

/// Facts about lines that every caller needs: a position lies on a line
/// that exists and that begins at or before it; line starts grow with the
/// line number and stay within the text.
#[verifier::spinoff_prover]
pub proof fn lemma_line_facts(t: Seq<char>)
    ensures
        line_count(t) >= 1,
        line_start(t, 0) == 0,
        forall|i: nat| i <= t.len() ==> #[trigger] line_of(t, i) < line_count(t),
        forall|i: nat| i <= t.len() ==> line_start(t, #[trigger] line_of(t, i)) <= i,
        forall|i: nat|
            i <= t.len() ==> i < line_start(t, (#[trigger] line_of(t, i) + 1) as nat)
                || line_of(t, i) + 1 == line_count(t),
        forall|y: nat| #[trigger] line_start(t, y) <= t.len(),
        forall|y: nat, z: nat| y <= z ==> #[trigger] line_start(t, y) <= #[trigger] line_start(t, z),
        forall|y: nat| y < line_count(t) ==> line_of(t, #[trigger] line_start(t, y)) == y,
{
    lemma_starts_shape(t, t.len());
    let s = line_starts(t);
    assert forall|i: nat| i <= t.len() implies #[trigger] line_of(t, i) < line_count(t)
        && line_start(t, line_of(t, i)) <= i && (i < line_start(t, (line_of(t, i) + 1) as nat)
        || line_of(t, i) + 1 == line_count(t)) by {
        lemma_starts_prefix(t, i, t.len());
        lemma_starts_shape(t, i);
        let p = starts_through(t, i);
        assert(s[p.len() - 1] == p[p.len() - 1]);
    }
    assert forall|y: nat, z: nat| y <= z implies #[trigger] line_start(t, y) <= #[trigger] line_start(
        t,
        z,
    ) by {
        if z < line_count(t) && y < z {
            assert(s[y as int] < s[z as int]);
        }
    }
    assert forall|y: nat| y < line_count(t) implies line_of(t, #[trigger] line_start(t, y)) == y by {
        let q = s[y as int];
        lemma_starts_prefix(t, q, t.len());
        lemma_starts_shape(t, q);
        let p = starts_through(t, q);
        // p is the prefix of s made of entries <= q, which are s[0..=y]
        assert(s.subrange(0, p.len() as int) == p);
        if p.len() > y + 1 {
            assert(p[y + 1int] == s[y + 1int]);
            assert(s[y + 1int] > q);
        }
        if p.len() < y + 1 {
            assert(s[p.len() as int] > q);
            assert(s[p.len() as int] <= s[y as int]);
        }
    }
}

/// `t` with the chars `s` inserted before position `i`.
pub open spec fn inserted(t: Seq<char>, i: int, s: Seq<char>) -> Seq<char> {
    t.subrange(0, i) + s + t.subrange(i, t.len() as int)
}

/// `t` without the chars at positions `a..b`.
pub open spec fn removed(t: Seq<char>, a: int, b: int) -> Seq<char> {
    t.subrange(0, a) + t.subrange(b, t.len() as int)
}

/// The start of line `y` can be read off `starts_through(t, j)` when that
/// already holds it.
#[verifier::spinoff_prover]
pub proof fn lemma_start_via(t: Seq<char>, j: nat, y: nat)
    requires
        j <= t.len(),
        y < starts_through(t, j).len(),
    ensures
        y < line_count(t),
        line_start(t, y) == starts_through(t, j)[y as int],
{
    lemma_starts_prefix(t, j, t.len());
    assert(starts_through(t, t.len()).subrange(0, starts_through(t, j).len() as int)[y as int]
        == starts_through(t, t.len())[y as int]);
}

/// A line that begins at or before position `i` is numbered at most
/// `line_of(t, i)`.
#[verifier::spinoff_prover]
pub proof fn lemma_line_of_bound(t: Seq<char>, i: nat, y: nat)
    requires
        i <= t.len(),
        y < line_count(t),
        line_start(t, y) <= i,
    ensures
        y <= line_of(t, i),
{
    lemma_line_facts(t);
    let k = line_of(t, i);
    if y > k {
        assert(line_start(t, (k + 1) as nat) <= line_start(t, y));
        assert(k + 1 < line_count(t));
    }
}

/// Inserting chars at position `i` keeps the lines that begin at or before
/// `i`, except that a line beginning right after a lone CR at `i` moves one
/// place when the inserted text starts with an LF (the CR and the LF then
/// form one break).  Inserting text that starts with an LF, where no such
/// joining happens, adds a line after line `line_of(t, i)`.
#[verifier::spinoff_prover]
#[verifier::rlimit(40)]
pub proof fn lemma_insert_lines(t: Seq<char>, s: Seq<char>, i: nat)
    requires
        i <= t.len(),
        s.len() > 0,
    ensures
        ({
            let t2 = inserted(t, i as int, s);
            let joins = i > 0 && t[i - 1] == '\r' && s[0] == '\n';
            &&& forall|y: nat|
                y <= line_of(t, i) ==> y < line_count(t2) && (line_start(t2, y) == line_start(t, y)
                    || (joins && line_start(t, y) == i && line_start(t2, y) == i + 1))
            &&& (s[0] == '\n' && !(i > 0 && t[i - 1] == '\r' && !(i < t.len() && t[i as int]
                == '\n'))) ==> line_count(t2) >= line_of(t, i) + 2
        }),
{
    let t2 = inserted(t, i as int, s);
    let joins = i > 0 && t[i - 1] == '\r' && s[0] == '\n';
    assert(t2.len() == t.len() + s.len());
    assert forall|q: int| 0 <= q < i implies t2[q] == t[q] by {}
    assert(t2[i as int] == s[0]);
    if i > 0 {
        assert forall|p: int| 0 < p <= i - 1 implies opens_line(t, p) == opens_line(t2, p) by {
            assert(t2[p - 1] == t[p - 1]);
            assert(t2[p] == t[p]);
        }
        lemma_starts_agree(t, t2, (i - 1) as nat);
    }
    let a = starts_through(t, i);
    let b = starts_through(t2, i);
    lemma_starts_shape(t, i);
    lemma_starts_shape(t2, i);
    lemma_line_facts(t);
    lemma_line_facts(t2);
    if i == 0 {
        assert(a == b);
    } else {
        let prev = starts_through(t, (i - 1) as nat);
        assert(prev == starts_through(t2, (i - 1) as nat));
        assert(t2[i - 1] == t[i - 1]);
        if opens_line(t, i as int) && !opens_line(t2, i as int) {
            assert(joins);
            let c = starts_through(t2, i + 1);
            assert(opens_line(t2, i + 1int));
            assert(c == prev.push(i + 1));
            assert forall|y: nat| y <= line_of(t, i) implies y < line_count(t2) && (line_start(
                t2,
                y,
            ) == line_start(t, y) || (joins && line_start(t, y) == i && line_start(t2, y) == i
                + 1)) by {
                lemma_start_via(t, i, y);
                lemma_start_via(t2, i + 1, y);
                if y < prev.len() {
                    assert(a[y as int] == prev[y as int]);
                    assert(c[y as int] == prev[y as int]);
                }
            }
        } else {
            // b extends a, or equals it
            assert(a.len() <= b.len());
            assert forall|y: nat| y < a.len() implies b[y as int] == a[y as int] by {
                if y < prev.len() {
                    assert(a[y as int] == prev[y as int]);
                    assert(b[y as int] == prev[y as int]);
                }
            }
            assert forall|y: nat| y <= line_of(t, i) implies y < line_count(t2) && (line_start(
                t2,
                y,
            ) == line_start(t, y) || (joins && line_start(t, y) == i && line_start(t2, y) == i
                + 1)) by {
                lemma_start_via(t, i, y);
                lemma_start_via(t2, i, y);
            }
        }
    }
    if s[0] == '\n' && !(i > 0 && t[i - 1] == '\r' && !(i < t.len() && t[i as int] == '\n')) {
        assert(opens_line(t2, i + 1int));
        let c = starts_through(t2, i + 1);
        assert(c == b.push(i + 1));
        lemma_starts_prefix(t2, i + 1, t2.len());
        if i > 0 {
            let prev = starts_through(t, (i - 1) as nat);
            assert(prev == starts_through(t2, (i - 1) as nat));
            if opens_line(t, i as int) {
                assert(opens_line(t2, i as int));
                assert(a == prev.push(i));
                assert(b == prev.push(i));
            } else {
                assert(a == prev);
            }
            assert(a.len() <= b.len());
        }
    }
}

/// Inserting an LF right after a lone CR joins the two into one break: the
/// number of lines does not change.
#[verifier::spinoff_prover]
pub proof fn lemma_insert_lf_after_cr(t: Seq<char>, i: nat)
    requires
        0 < i <= t.len(),
        t[i - 1] == '\r',
        !(i < t.len() && t[i as int] == '\n'),
    ensures
        line_count(inserted(t, i as int, seq!['\n'])) == line_count(t),
{
    let t2 = inserted(t, i as int, seq!['\n']);
    assert(t2.len() == t.len() + 1);
    assert forall|q: int| 0 <= q < i implies t2[q] == t[q] by {}
    assert forall|q: int| i < q < t2.len() implies t2[q] == t[q - 1] by {}
    assert(t2[i as int] == '\n');
    assert forall|p: int| 0 < p <= i - 1 implies opens_line(t, p) == opens_line(t2, p) by {
        assert(t2[p - 1] == t[p - 1]);
        assert(t2[p] == t[p]);
    }
    lemma_starts_agree(t, t2, (i - 1) as nat);
    assert(opens_line(t, i as int));
    assert(!opens_line(t2, i as int));
    assert(opens_line(t2, i + 1int));
    lemma_shifted_count(t, t2, i, t.len());
}

/// After the join point, the lines of `t2` are those of `t` one position
/// later.
proof fn lemma_shifted_count(t: Seq<char>, t2: Seq<char>, i: nat, j: nat)
    requires
        0 < i <= j <= t.len(),
        t2.len() == t.len() + 1,
        forall|q: int| i < q < t2.len() ==> t2[q] == t[q - 1],
        t2[i as int] == '\n',
        t[i - 1] == '\r',
        starts_through(t2, (i - 1) as nat) == starts_through(t, (i - 1) as nat),
        opens_line(t, i as int),
        !opens_line(t2, i as int),
        opens_line(t2, i + 1int),
    ensures
        starts_through(t2, j + 1).len() == starts_through(t, j).len(),
    decreases j - i,
{
    if j == i {
        assert(starts_through(t2, i) == starts_through(t2, (i - 1) as nat));
        assert(starts_through(t, i) == starts_through(t, (i - 1) as nat).push(i));
        assert(starts_through(t2, i + 1) == starts_through(t2, i).push(i + 1));
    } else {
        lemma_shifted_count(t, t2, i, (j - 1) as nat);
        assert(t2[j as int] == t[j - 1]);
        if j + 1 < t2.len() {
            assert(t2[j + 1int] == t[j as int]);
        }
        assert(opens_line(t2, j + 1int) == opens_line(t, j as int));
    }
}

/// Removing the char at position `i` keeps the lines that begin at or
/// before `i`, except that a line beginning right after a lone CR at `i`
/// moves one place when the removal joins that CR with a following LF.
#[verifier::spinoff_prover]
pub proof fn lemma_remove_char_lines(t: Seq<char>, i: nat)
    requires
        i < t.len(),
    ensures
        ({
            let t2 = removed(t, i as int, i + 1int);
            forall|y: nat|
                y <= line_of(t, i) ==> y < line_count(t2) && (line_start(t2, y) == line_start(t, y)
                    || (line_start(t, y) == i && line_start(t2, y) == i + 1 && i + 1
                    <= t2.len()))
        }),
{
    let t2 = removed(t, i as int, i + 1int);
    assert(t2.len() == t.len() - 1);
    assert forall|q: int| 0 <= q < i implies t2[q] == t[q] by {}
    assert forall|q: int| i <= q < t2.len() implies t2[q] == t[q + 1] by {}
    if i > 0 {
        assert forall|p: int| 0 < p <= i - 1 implies opens_line(t, p) == opens_line(t2, p) by {
            assert(t2[p - 1] == t[p - 1]);
            assert(t2[p] == t[p]);
        }
        lemma_starts_agree(t, t2, (i - 1) as nat);
    }
    let a = starts_through(t, i);
    lemma_starts_shape(t, i);
    lemma_line_facts(t);
    lemma_line_facts(t2);
    if i == 0 {
        assert forall|y: nat| y <= line_of(t, i) implies y < line_count(t2) && (line_start(t2, y)
            == line_start(t, y) || (line_start(t, y) == i && line_start(t2, y) == i + 1 && i + 1
            <= t2.len())) by {
            assert(y == 0);
        }
    } else {
        let prev = starts_through(t, (i - 1) as nat);
        let b = starts_through(t2, i);
        if opens_line(t, i as int) && !opens_line(t2, i as int) {
            assert(t[i - 1] == '\r');
            assert(i < t2.len() && t2[i as int] == '\n');
            assert(opens_line(t2, i + 1int));
            let c = starts_through(t2, i + 1);
            assert(c == prev.push(i + 1));
            assert forall|y: nat| y <= line_of(t, i) implies y < line_count(t2) && (line_start(
                t2,
                y,
            ) == line_start(t, y) || (line_start(t, y) == i && line_start(t2, y) == i + 1 && i
                + 1 <= t2.len())) by {
                lemma_start_via(t, i, y);
                lemma_start_via(t2, i + 1, y);
                if y < prev.len() {
                    assert(a[y as int] == prev[y as int]);
                    assert(c[y as int] == prev[y as int]);
                }
            }
        } else {
            assert forall|y: nat| y < a.len() implies y < b.len() && b[y as int] == a[y as int] by {
                if y < prev.len() {
                    assert(a[y as int] == prev[y as int]);
                    assert(b[y as int] == prev[y as int]);
                }
            }
            assert forall|y: nat| y <= line_of(t, i) implies y < line_count(t2) && (line_start(
                t2,
                y,
            ) == line_start(t, y) || (line_start(t, y) == i && line_start(t2, y) == i + 1 && i
                + 1 <= t2.len())) by {
                lemma_start_via(t, i, y);
                lemma_start_via(t2, i, y);
            }
        }
    }
}

/// Inserting an LF at position `i`, on or after the start of line `y`,
/// leaves a line after line `y` unless it joins a lone CR on the last line.
#[verifier::spinoff_prover]
pub proof fn lemma_newline_adds_line(t: Seq<char>, i: nat, y: nat)
    requires
        i <= t.len(),
        y < line_count(t),
        line_start(t, y) <= i,
        !(i > 0 && t[i - 1] == '\r' && !(i < t.len() && t[i as int] == '\n') && y + 1
            == line_count(t)),
    ensures
        y + 1 < line_count(inserted(t, i as int, seq!['\n'])),
{
    lemma_line_of_bound(t, i, y);
    lemma_insert_lines(t, seq!['\n'], i);
    if i > 0 && t[i - 1] == '\r' && !(i < t.len() && t[i as int] == '\n') {
        lemma_insert_lf_after_cr(t, i);
    }
}

/// Enter at position `i`, with the cursor on line `y` (or just past the
/// last line, at the end of a text that does not end in a lone CR), leaves
/// a line `y + 1` or the place just past the last line.
pub proof fn lemma_newline_keeps_cursor(t: Seq<char>, i: nat, y: nat)
    requires
        i <= t.len(),
        y <= line_count(t),
        y < line_count(t) ==> line_start(t, y) <= i,
        y == line_count(t) ==> i == t.len() && !(t.len() > 0 && t[t.len() - 1] == '\r'),
    ensures
        y + 1 <= line_count(inserted(t, i as int, seq!['\n'])),
{
    lemma_line_facts(t);
    if y < line_count(t) {
        if i > 0 && t[i - 1] == '\r' && !(i < t.len() && t[i as int] == '\n') && y + 1
            == line_count(t) {
            lemma_insert_lf_after_cr(t, i);
        } else {
            lemma_newline_adds_line(t, i, y);
        }
    } else {
        lemma_insert_lines(t, seq!['\n'], i);
        assert(line_of(t, i) + 1 == line_count(t));
    }
}

/// There are at most as many lines as chars, plus one.
#[verifier::spinoff_prover]
pub proof fn lemma_line_count_bound(t: Seq<char>)
    ensures
        line_count(t) <= t.len() + 1,
{
    let s = line_starts(t);
    lemma_starts_shape(t, t.len());
    assert forall|k: int| 0 <= k < s.len() implies s[k] >= k by {
        lemma_increasing_at_least_index(s, k);
    }
    assert(s[s.len() - 1] >= s.len() - 1);
}

proof fn lemma_increasing_at_least_index(s: Seq<nat>, k: int)
    requires
        0 <= k < s.len(),
        forall|a: int, b: int| 0 <= a < b < s.len() ==> s[a] < s[b],
    ensures
        s[k] >= k,
    decreases k,
{
    if k > 0 {
        lemma_increasing_at_least_index(s, k - 1);
    }
}

/// A line start never lies beyond the end of the text.
#[verifier::spinoff_prover]
pub proof fn lemma_start_le_len(t: Seq<char>, y: nat)
    ensures
        line_start(t, y) <= t.len(),
{
    if y < line_count(t) {
        lemma_starts_shape(t, t.len());
    }
}

/// Consecutive lines begin in order.
#[verifier::spinoff_prover]
pub proof fn lemma_start_next(t: Seq<char>, y: nat)
    ensures
        line_start(t, y) <= line_start(t, y + 1),
{
    lemma_starts_shape(t, t.len());
}

/// Line starts grow with the line number.
#[verifier::spinoff_prover]
pub proof fn lemma_start_mono(t: Seq<char>, y: nat, z: nat)
    requires
        y <= z,
    ensures
        line_start(t, y) <= line_start(t, z) <= t.len(),
{
    lemma_starts_shape(t, t.len());
    if z < line_count(t) && y < z {
        assert(line_starts(t)[y as int] < line_starts(t)[z as int]);
    }
}

/// A text that keeps the first `i` chars of `t` keeps a cursor standing at
/// position `i` within it (the cursor's line may then begin one place later,
/// when a lone CR before `i` now meets an LF).
#[verifier::spinoff_prover]
pub proof fn lemma_prefix_keeps_cursor(t: Seq<char>, t2: Seq<char>, i: nat, x: nat, y: nat)
    requires
        i <= t.len(),
        i <= t2.len(),
        t2.subrange(0, i as int) == t.subrange(0, i as int),
        cursor_ok(t, x, y),
        y < line_count(t),
        line_start(t, y) + x == i,
    ensures
        cursor_ok(t2, x, y),
{
    assert forall|q: int| 0 <= q < i implies t2[q] == t[q] by {
        assert(t2.subrange(0, i as int)[q] == t2[q]);
        assert(t.subrange(0, i as int)[q] == t[q]);
    }
    if i == 0 {
        lemma_line_facts(t2);
        assert(y == 0) by {
            lemma_line_of_bound(t, 0, y);
            lemma_starts_shape(t, 0);
        }
        return;
    }
    assert forall|p: int| 0 < p <= i - 1 implies opens_line(t, p) == opens_line(t2, p) by {
        assert(t2[p - 1] == t[p - 1]);
        assert(t2[p] == t[p]);
    }
    lemma_starts_agree(t, t2, (i - 1) as nat);
    let prev = starts_through(t, (i - 1) as nat);
    lemma_starts_shape(t, (i - 1) as nat);
    if line_start(t, y) < i {
        lemma_line_of_bound(t, (i - 1) as nat, y);
        lemma_start_via(t, (i - 1) as nat, y);
        lemma_start_via(t2, (i - 1) as nat, y);
    } else {
        lemma_line_facts(t);
        lemma_line_of_bound(t, i, y);
        lemma_starts_shape(t, i);
        // line y begins at i: i opens a line in t, and y is the next index
        assert(line_of(t, line_start(t, y)) == y);
        if y >= prev.len() + 1 {
            assert(starts_through(t, i).len() <= prev.len() + 1);
        }
        if y < prev.len() {
            lemma_start_via(t, (i - 1) as nat, y);
            assert(prev[y as int] <= i - 1);
        }
        assert(y == prev.len());
        assert(opens_line(t, i as int)) by {
            assert(starts_through(t, i).len() == y + 1);
        }
        assert(t2[i - 1] == t[i - 1]);
        if opens_line(t2, i as int) {
            assert(starts_through(t2, i) == prev.push(i));
            lemma_start_via(t2, i, y);
        } else {
            assert(opens_line(t2, i + 1int));
            assert(starts_through(t2, i) == prev);
            assert(starts_through(t2, i + 1) == prev.push(i + 1));
            lemma_start_via(t2, i + 1, y);
        }
    }
}

/// Removing a whole line `y` (its line break included) leaves line `y` of
/// the rest beginning where the removed line began, unless that joins a lone
/// CR before the line with an LF after it.
#[verifier::spinoff_prover]
#[verifier::rlimit(40)]
pub proof fn lemma_remove_line_keeps_start(t: Seq<char>, y: nat)
    requires
        y < line_count(t),
        !(line_start(t, y) > 0 && t[line_start(t, y) - 1] == '\r' && line_start(t, y + 1)
            < t.len() && t[line_start(t, y + 1) as int] == '\n'),
    ensures
        ({
            let t2 = removed(t, line_start(t, y) as int, line_start(t, y + 1) as int);
            y < line_count(t2) && line_start(t2, y) == line_start(t, y)
        }),
{
    let a = line_start(t, y);
    let b = line_start(t, y + 1);
    lemma_line_facts(t);
    lemma_start_next(t, y);
    let t2 = removed(t, a as int, b as int);
    lemma_line_facts(t2);
    if a == 0 {
        assert(y == 0) by {
            assert(line_of(t, line_start(t, y)) == y);
            lemma_starts_shape(t, 0);
        }
        return;
    }
    assert(t2.len() == t.len() - (b - a));
    lemma_starts_shape(t, t.len());
    assert(opens_line(t, a as int));
    assert forall|q: int| 0 <= q < a implies t2[q] == t[q] by {}
    assert forall|p: int| 0 < p <= a implies opens_line(t, p) == opens_line(t2, p) by {
        assert(t2[p - 1] == t[p - 1]);
        if p < a {
            assert(t2[p] == t[p]);
        } else if p < t2.len() {
            assert(t2[p] == t[b as int]);
        }
    }
    lemma_starts_agree(t, t2, a);
    assert(line_of(t, a) == y);
    lemma_start_via(t, a, y);
    lemma_start_via(t2, a, y);
}

/// At the end of a text that ends with a lone CR a new, empty, line begins.
#[verifier::spinoff_prover]
pub proof fn lemma_cr_end_starts_line(t: Seq<char>)
    requires
        t.len() > 0,
        t[t.len() - 1] == '\r',
    ensures
        line_start(t, line_of(t, t.len())) == t.len(),
{
    let s = line_starts(t);
    lemma_starts_shape(t, t.len());
    assert(opens_line(t, t.len() as int));
    assert(s.contains(t.len()));
    let w = choose|w: int| 0 <= w < s.len() && s[w] == t.len();
    if w < s.len() - 1 {
        assert(s[w] < s[s.len() - 1]);
    }
    assert(s[s.len() - 1] == t.len());
}

/// The line that position `i` is on is the last line exactly when no line
/// break comes at or after `i`.
#[verifier::spinoff_prover]
pub proof fn lemma_last_line_iff(t: Seq<char>, i: nat)
    requires
        i <= t.len(),
    ensures
        (line_of(t, i) + 1 == line_count(t)) == (forall|k: int|
            i <= k < t.len() ==> !is_line_break(#[trigger] t[k])),
{
    let p = starts_through(t, i);
    let s = starts_through(t, t.len());
    lemma_starts_prefix(t, i, t.len());
    lemma_starts_shape(t, i);
    lemma_starts_shape(t, t.len());
    if s.len() > p.len() {
        let q = s[p.len() as int];
        assert(q > i);
        assert(opens_line(t, q as int));
        assert(is_line_break(t[q - 1]));
    } else {
        assert forall|k: int| i <= k < t.len() implies !is_line_break(#[trigger] t[k]) by {
            if is_line_break(t[k]) {
                let q: int = if opens_line(t, k + 1) {
                    k + 1
                } else {
                    assert(opens_line(t, k + 2));
                    k + 2
                };
                assert(s.contains(q as nat));
                let w = choose|w: int| 0 <= w < s.len() && s[w] == q as nat;
                assert(s.subrange(0, p.len() as int)[w] == p[w]);
                assert(p[w] <= i);
            }
        }
    }
}

} // verus!
