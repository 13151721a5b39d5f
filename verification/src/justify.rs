//! Paragraph justification: a paragraph's words refilled into lines of at
//! most 72 bytes.
use vstd::prelude::*;
use crate::text::{char_is_whitespace, is_whitespace};

verus! {

/// The number of bytes of `c` in UTF-8.
pub open spec fn utf8_width(c: char) -> nat {
    if (c as u32) < 0x80 {
        1
    } else if (c as u32) < 0x800 {
        2
    } else if (c as u32) < 0x10000 {
        3
    } else {
        4
    }
}

/// The number of bytes of `s` in UTF-8.
pub open spec fn utf8_len(s: Seq<char>) -> nat
    decreases s.len(),
{
    if s.len() == 0 {
        0
    } else {
        utf8_len(s.drop_last()) + utf8_width(s.last())
    }
}

/// The words of `s` (its maximal runs of non-whitespace chars), as
/// `start..end` spans in order.
pub open spec fn word_spans(s: Seq<char>) -> Seq<(int, int)>
    decreases s.len(),
{
    if s.len() == 0 {
        seq![]
    } else {
        let w = word_spans(s.drop_last());
        let n = s.len() as int;
        if char_is_whitespace(s.last()) {
            w
        } else if n >= 2 && !char_is_whitespace(s[n - 2]) {
            w.update(w.len() - 1, (w.last().0, n))
        } else {
            w.push((n - 1, n))
        }
    }
}

/// The words of `s`, as `str::split_whitespace` yields them.
pub open spec fn words(s: Seq<char>) -> Seq<Seq<char>> {
    word_spans(s).map_values(|p: (int, int)| s.subrange(p.0, p.1))
}

/// The words given by `spans` laid out in lines: a word goes on the current
/// line, after a space, unless the line's bytes, the word's and one more
/// would exceed 72; then it starts a new line.  Also gives the byte length
/// of the last line.
pub open spec fn fill(s: Seq<char>, spans: Seq<(int, int)>) -> (Seq<char>, nat)
    decreases spans.len(),
{
    if spans.len() == 0 {
        (seq![], 0)
    } else {
        let (acc, cur) = fill(s, spans.drop_last());
        let w = s.subrange(spans.last().0, spans.last().1);
        let wl = utf8_len(w);
        if cur + wl + 1 > 72 {
            (acc.push('\n') + w, wl)
        } else if cur > 0 {
            (acc.push(' ') + w, cur + 1 + wl)
        } else {
            (acc + w, wl)
        }
    }
}

/// The justified form of the paragraph `s`: its words refilled, then a
/// final line break.
pub open spec fn justified(s: Seq<char>) -> Seq<char> {
    fill(s, word_spans(s)).0.push('\n')
}

/// The spans are ordered, non-empty, within `s`, and separated.
pub open spec fn spans_ok(s: Seq<char>, spans: Seq<(int, int)>) -> bool {
    &&& forall|k: int| 0 <= k < spans.len() ==> 0 <= #[trigger] spans[k].0 < spans[k].1 <= s.len()
    &&& forall|k: int| 0 <= k < spans.len() - 1 ==> #[trigger] spans[k].1 < spans[k + 1].0
}

pub proof fn lemma_word_spans_ok(s: Seq<char>)
    ensures
        spans_ok(s, word_spans(s)),
        (s.len() > 0 && !char_is_whitespace(s.last())) ==> word_spans(s).len() > 0
            && word_spans(s).last().1 == s.len(),
        (s.len() > 0 && char_is_whitespace(s.last()) && word_spans(s).len() > 0)
            ==> word_spans(s).last().1 < s.len(),
        word_spans(s).len() > 0 ==> word_spans(s).last().1 <= s.len(),
    decreases s.len(),
{
    if s.len() > 0 {
        let p = s.drop_last();
        lemma_word_spans_ok(p);
        let w = word_spans(p);
        let n = s.len() as int;
        let r = word_spans(s);
        if char_is_whitespace(s.last()) {
            assert(r == w);
        } else if n >= 2 && !char_is_whitespace(s[n - 2]) {
            assert(p.last() == s[n - 2]);
            assert(w.len() > 0);
            assert(r == w.update(w.len() - 1, (w.last().0, n)));
            assert forall|k: int| 0 <= k < r.len() implies 0 <= #[trigger] r[k].0 < r[k].1
                <= s.len() by {
                if k < r.len() - 1 {
                    assert(r[k] == w[k]);
                }
            }
            assert forall|k: int| 0 <= k < r.len() - 1 implies #[trigger] r[k].1 < r[k + 1].0 by {
                assert(r[k] == w[k]);
                if k + 1 < r.len() - 1 {
                    assert(r[k + 1] == w[k + 1]);
                }
            }
        } else {
            assert(r == w.push((n - 1, n)));
            if w.len() > 0 {
                assert(n >= 2);
                assert(p.last() == s[n - 2]);
                assert(w.last().1 < n - 1);
            }
            assert forall|k: int| 0 <= k < r.len() implies 0 <= #[trigger] r[k].0 < r[k].1
                <= s.len() by {
                if k < r.len() - 1 {
                    assert(r[k] == w[k]);
                }
            }
            assert forall|k: int| 0 <= k < r.len() - 1 implies #[trigger] r[k].1 < r[k + 1].0 by {
                assert(r[k] == w[k]);
                if k + 1 < r.len() - 1 {
                    assert(r[k + 1] == w[k + 1]);
                }
            }
        }
    }
}

/// The filled text takes no more than the last word's end plus one.
pub proof fn lemma_fill_len(s: Seq<char>, spans: Seq<(int, int)>)
    requires
        spans_ok(s, spans),
    ensures
        spans.len() == 0 ==> fill(s, spans).0.len() == 0,
        spans.len() > 0 ==> fill(s, spans).0.len() <= spans.last().1 + 1,
    decreases spans.len(),
{
    if spans.len() > 0 {
        let prev = spans.drop_last();
        assert(spans_ok(s, prev)) by {
            assert forall|k: int| 0 <= k < prev.len() - 1 implies #[trigger] prev[k].1 < prev[k
                + 1].0 by {
                assert(prev[k] == spans[k]);
                assert(prev[k + 1] == spans[k + 1]);
            }
        }
        lemma_fill_len(s, prev);
        if prev.len() > 0 {
            assert(prev.last() == spans[spans.len() - 2]);
        }
    }
}

/// The justified paragraph is at most two chars longer than the paragraph it was made from.
pub proof fn lemma_justified_len(s: Seq<char>)
    ensures
        justified(s).len() <= s.len() + 2,
{
    lemma_word_spans_ok(s);
    lemma_fill_len(s, word_spans(s));
}

/// The chars of every span are non-whitespace.
pub open spec fn spans_are_words(s: Seq<char>, spans: Seq<(int, int)>) -> bool {
    forall|k: int, j: int|
        #![trigger spans[k], s[j]]
        0 <= k < spans.len() && spans[k].0 <= j < spans[k].1 ==> !char_is_whitespace(s[j])
}

/// The words found in `s` hold no whitespace.
pub proof fn lemma_word_spans_are_words(s: Seq<char>)
    ensures
        spans_are_words(s, word_spans(s)),
    decreases s.len(),
{
    if s.len() > 0 {
        let p = s.drop_last();
        lemma_word_spans_are_words(p);
        lemma_word_spans_ok(p);
        let w = word_spans(p);
        let n = s.len() as int;
        let r = word_spans(s);
        assert forall|j: int| 0 <= j < p.len() implies s[j] == p[j] by {}
        if char_is_whitespace(s.last()) {
            assert(r == w);
            assert forall|k: int, j: int| #![trigger r[k], s[j]] 0 <= k < r.len() && r[k].0 <= j < r[k].1 implies
                !char_is_whitespace(s[j]) by {
                assert(w[k].1 <= p.len());
            }
        } else if n >= 2 && !char_is_whitespace(s[n - 2]) {
            assert(p.last() == s[n - 2]);
            assert forall|k: int, j: int| #![trigger r[k], s[j]] 0 <= k < r.len() && r[k].0 <= j < r[k].1 implies
                !char_is_whitespace(s[j]) by {
                if k < r.len() - 1 {
                    assert(r[k] == w[k]);
                    assert(w[k].1 <= p.len());
                } else if j < n - 1 {
                    assert(w[k].0 <= j < w[k].1);
                }
            }
        } else {
            assert(r == w.push((n - 1, n)));
            assert forall|k: int, j: int| #![trigger r[k], s[j]] 0 <= k < r.len() && r[k].0 <= j < r[k].1 implies
                !char_is_whitespace(s[j]) by {
                if k < r.len() - 1 {
                    assert(r[k] == w[k]);
                    assert(w[k].1 <= p.len());
                }
            }
        }
    }
}

/// A whitespace char added at the end adds no word.
proof fn lemma_words_after_space(a: Seq<char>, c: char)
    requires
        char_is_whitespace(c),
    ensures
        words(a.push(c)) == words(a),
{
    let t = a.push(c);
    assert(t.drop_last() == a);
    lemma_word_spans_ok(a);
    let w = word_spans(a);
    assert(word_spans(t) == w);
    assert forall|k: int| 0 <= k < w.len() implies t.subrange(w[k].0, w[k].1) == a.subrange(
        w[k].0,
        w[k].1,
    ) by {
        assert(t.subrange(w[k].0, w[k].1) =~= a.subrange(w[k].0, w[k].1));
    }
    assert(words(t) =~= words(a));
}

/// The spans of `a` followed by a word `v` (non-empty, no whitespace)
/// that starts after whitespace or at the start.
proof fn lemma_spans_after_word(a: Seq<char>, v: Seq<char>)
    requires
        v.len() > 0,
        forall|j: int| 0 <= j < v.len() ==> !char_is_whitespace(#[trigger] v[j]),
        a.len() == 0 || char_is_whitespace(a.last()),
    ensures
        word_spans(a + v) == word_spans(a).push((a.len() as int, (a.len() + v.len()) as int)),
    decreases v.len(),
{
    let t = a + v;
    let n = t.len() as int;
    assert(t.last() == v.last());
    if v.len() == 1 {
        assert(t.drop_last() =~= a);
        if n >= 2 {
            assert(t[n - 2] == a.last());
        }
    } else {
        let v2 = v.drop_last();
        lemma_spans_after_word(a, v2);
        assert(t.drop_last() =~= a + v2);
        assert(t[n - 2] == v2.last());
    }
}

/// A word added at the end of `a` (after whitespace, or at the start) is
/// the last word.
proof fn lemma_words_after_word(a: Seq<char>, v: Seq<char>)
    requires
        v.len() > 0,
        forall|j: int| 0 <= j < v.len() ==> !char_is_whitespace(#[trigger] v[j]),
        a.len() == 0 || char_is_whitespace(a.last()),
    ensures
        words(a + v) == words(a).push(v),
{
    let t = a + v;
    lemma_spans_after_word(a, v);
    lemma_word_spans_ok(a);
    let w = word_spans(a);
    assert forall|k: int| 0 <= k < w.len() implies t.subrange(w[k].0, w[k].1) == a.subrange(
        w[k].0,
        w[k].1,
    ) by {
        assert(t.subrange(w[k].0, w[k].1) =~= a.subrange(w[k].0, w[k].1));
    }
    assert(t.subrange(a.len() as int, (a.len() + v.len()) as int) =~= v);
    assert(words(t) =~= words(a).push(v));
}

/// A non-empty piece of text takes at least one byte.
proof fn lemma_utf8_len_pos(s: Seq<char>)
    requires
        s.len() > 0,
    ensures
        utf8_len(s) > 0,
{
}

/// Filling words gives back those words, in order; the filled text is
/// empty exactly when there are no words, and otherwise ends in a word.
proof fn lemma_fill_words(s: Seq<char>, spans: Seq<(int, int)>)
    requires
        spans_ok(s, spans),
        spans_are_words(s, spans),
    ensures
        words(fill(s, spans).0) == spans.map_values(|p: (int, int)| s.subrange(p.0, p.1)),
        (fill(s, spans).1 == 0) == (spans.len() == 0),
        fill(s, spans).1 == 0 ==> fill(s, spans).0.len() == 0,
        fill(s, spans).0.len() > 0 ==> !char_is_whitespace(fill(s, spans).0.last()),
    decreases spans.len(),
{
    if spans.len() == 0 {
        assert(words(Seq::<char>::empty()) =~= Seq::<Seq<char>>::empty());
        assert(spans.map_values(|p: (int, int)| s.subrange(p.0, p.1)) =~= Seq::<Seq<char>>::empty());
    } else {
        let prev = spans.drop_last();
        assert(spans_ok(s, prev)) by {
            assert forall|k: int| 0 <= k < prev.len() - 1 implies #[trigger] prev[k].1 < prev[k
                + 1].0 by {
                assert(prev[k] == spans[k]);
                assert(prev[k + 1] == spans[k + 1]);
            }
        }
        assert(spans_are_words(s, prev)) by {
            assert forall|k: int, j: int| #![trigger prev[k], s[j]] 0 <= k < prev.len() && prev[k].0 <= j < prev[k].1 implies
                !char_is_whitespace(s[j]) by {
                assert(prev[k] == spans[k]);
            }
        }
        lemma_fill_words(s, prev);
        let (acc, cur) = fill(s, prev);
        let last = spans.last();
        let w = s.subrange(last.0, last.1);
        assert(spans[spans.len() - 1] == last);
        assert forall|j: int| 0 <= j < w.len() implies !char_is_whitespace(#[trigger] w[j]) by {
            assert(w[j] == s[last.0 + j]);
        }
        lemma_utf8_len_pos(w);
        let mapped = spans.map_values(|p: (int, int)| s.subrange(p.0, p.1));
        let mprev = prev.map_values(|p: (int, int)| s.subrange(p.0, p.1));
        assert(mapped =~= mprev.push(w));
        let wl = utf8_len(w);
        if cur + wl + 1 > 72 {
            lemma_words_after_space(acc, '\n');
            lemma_words_after_word(acc.push('\n'), w);
            assert((acc.push('\n') + w).last() == w.last());
        } else if cur > 0 {
            lemma_words_after_space(acc, ' ');
            lemma_words_after_word(acc.push(' '), w);
            assert((acc.push(' ') + w).last() == w.last());
        } else {
            lemma_words_after_word(acc, w);
            assert((acc + w).last() == w.last());
        }
    }
}

/// Justifying keeps the paragraph's words, in order: only the whitespace
/// between them changes.
pub proof fn lemma_justify_keeps_words(s: Seq<char>)
    ensures
        words(justified(s)) == words(s),
{
    lemma_word_spans_ok(s);
    lemma_word_spans_are_words(s);
    lemma_fill_words(s, word_spans(s));
    lemma_words_after_space(fill(s, word_spans(s)).0, '\n');
}

/// The UTF-8 width of a char.
pub fn char_utf8_width(c: char) -> (n: usize)
    ensures
        n == utf8_width(c),
{
    let v = c as u32;
    if v < 0x80 {
        1
    } else if v < 0x800 {
        2
    } else if v < 0x10000 {
        3
    } else {
        4
    }
}

proof fn lemma_utf8_len_bound(s: Seq<char>)
    ensures
        utf8_len(s) <= 4 * s.len(),
    decreases s.len(),
{
    if s.len() > 0 {
        lemma_utf8_len_bound(s.drop_last());
    }
}

/// The UTF-8 length of the chars `s[a..b]`.
pub fn utf8_len_of(s: &Vec<char>, a: usize, b: usize) -> (n: usize)
    requires
        a <= b <= s.len(),
        s.len() <= usize::MAX / 8,
    ensures
        n == utf8_len(s@.subrange(a as int, b as int)),
{
    let mut n: usize = 0;
    let mut i = a;
    while i < b
        invariant
            a <= i <= b <= s.len() <= usize::MAX / 8,
            n == utf8_len(s@.subrange(a as int, i as int)),
            n <= 4 * (i - a),
        decreases b - i,
    {
        assert(s@.subrange(a as int, i + 1).drop_last() == s@.subrange(a as int, i as int));
        n = n + char_utf8_width(s[i]);
        i = i + 1;
    }
    n
}

/// The word spans of `s`.
pub fn split_words(s: &Vec<char>) -> (spans: Vec<(usize, usize)>)
    ensures
        spans@.len() == word_spans(s@).len(),
        forall|k: int|
            0 <= k < spans@.len() ==> spans@[k].0 as int == word_spans(s@)[k].0 && spans@[k].1 as int
                == word_spans(s@)[k].1,
{
    let mut spans: Vec<(usize, usize)> = Vec::new();
    let mut i: usize = 0;
    let mut prev_is_word = false;
    while i < s.len()
        invariant
            i <= s.len(),
            prev_is_word == (i > 0 && !char_is_whitespace(s@[i - 1])),
            spans@.len() == word_spans(s@.take(i as int)).len(),
            forall|k: int|
                0 <= k < spans@.len() ==> spans@[k].0 as int == word_spans(s@.take(i as int))[k].0
                    && spans@[k].1 as int == word_spans(s@.take(i as int))[k].1,
        decreases s.len() - i,
    {
        let ghost t = s@.take(i + 1);
        proof {
            lemma_word_spans_ok(s@.take(i as int));
            if i > 0 {
                assert(s@.take(i as int).last() == s@[i - 1]);
            }
        }
        assert(t.drop_last() == s@.take(i as int));
        assert(t.last() == s@[i as int]);
        let ws = is_whitespace(s[i]);
        if ws {
            prev_is_word = false;
        } else if prev_is_word {
            assert(t[i - 1] == s@[i - 1]);
            let last = spans.len() - 1;
            let (a, _) = spans[last];
            spans.set(last, (a, i + 1));
            prev_is_word = true;
        } else {
            if i > 0 {
                assert(t[i - 1] == s@[i - 1]);
            }
            spans.push((i, i + 1));
            prev_is_word = true;
        }
        i = i + 1;
    }
    assert(s@.take(s.len() as int) == s@);
    spans
}

/// The justified form of the paragraph `s`.
pub fn justify_text(s: &Vec<char>) -> (r: Vec<char>)
    requires
        s.len() <= usize::MAX / 16,
    ensures
        r@ == justified(s@),
{
    let spans = split_words(s);
    let ghost sp = word_spans(s@);
    proof {
        lemma_word_spans_ok(s@);
    }
    let mut out: Vec<char> = Vec::new();
    let mut cur: usize = 0;
    let mut k: usize = 0;
    while k < spans.len()
        invariant
            k <= spans@.len() == sp.len(),
            s.len() <= usize::MAX / 16,
            spans_ok(s@, sp),
            forall|j: int|
                0 <= j < spans@.len() ==> spans@[j].0 as int == sp[j].0 && spans@[j].1 as int
                    == sp[j].1,
            (out@, cur as nat) == fill(s@, sp.take(k as int)),
            cur <= 72 + 4 * s.len(),
        decreases spans.len() - k,
    {
        let (a, b) = spans[k];
        assert(0 <= sp[k as int].0 < sp[k as int].1 <= s@.len());
        assert(sp.take(k + 1).drop_last() == sp.take(k as int));
        assert(sp.take(k + 1).last() == sp[k as int]);
        let wl = utf8_len_of(s, a, b);
        proof {
            lemma_utf8_len_bound(s@.subrange(a as int, b as int));
        }
        if cur + wl + 1 > 72 {
            out.push('\n');
            let mut i = a;
            let ghost base = out@;
            while i < b
                invariant
                    a <= i <= b <= s.len(),
                    out@ == base + s@.subrange(a as int, i as int),
                decreases b - i,
            {
                out.push(s[i]);
                i = i + 1;
            }
            cur = wl;
        } else {
            if cur > 0 {
                out.push(' ');
                cur = cur + 1;
            }
            let mut i = a;
            let ghost base = out@;
            while i < b
                invariant
                    a <= i <= b <= s.len(),
                    out@ == base + s@.subrange(a as int, i as int),
                decreases b - i,
            {
                out.push(s[i]);
                i = i + 1;
            }
            cur = cur + wl;
        }
        k = k + 1;
    }
    assert(sp.take(sp.len() as int) == sp);
    out.push('\n');
    out
}

} // verus!
