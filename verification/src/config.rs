//! The settings file (theme, line numbers, soft wrap), the colours of the
//! editor's own interface derived from a theme, and cycling through themes.
use vstd::prelude::*;
use crate::text::{chars_of, lowercase, push_str, string_of, to_lowercase};
use crate::ui::{contains, str_contains};
use vstd::string::*;
use crate::editor::Editor;

verus! {

/// `s` without one trailing CR.
pub open spec fn strip_cr(s: Seq<char>) -> Seq<char> {
    if s.len() > 0 && s.last() == '\r' {
        s.drop_last()
    } else {
        s
    }
}

/// The lines of `t` from position `i` on, `cur` holding the chars of the
/// line read so far: lines end at an LF, which is dropped together with a
/// CR before it; a last line without an LF counts when it is not empty.
pub open spec fn lines_from(t: Seq<char>, i: nat, cur: Seq<char>) -> Seq<Seq<char>>
    decreases t.len() - i,
{
    if i >= t.len() {
        if cur.len() > 0 {
            seq![cur]
        } else {
            Seq::empty()
        }
    } else if t[i as int] == '\n' {
        seq![strip_cr(cur)] + lines_from(t, i + 1, Seq::empty())
    } else {
        lines_from(t, i + 1, cur.push(t[i as int]))
    }
}

/// The lines of `t`, as `str::lines` gives them.
pub open spec fn text_lines(t: Seq<char>) -> Seq<Seq<char>> {
    lines_from(t, 0, Seq::empty())
}

/// The settings: the theme's name, and whether line numbers and soft wrap
/// are on.
pub type Settings = (Seq<char>, bool, bool);

/// The settings before any line of the file is read.
pub open spec fn default_settings() -> Settings {
    ("base16-ocean.dark"@, false, false)
}

/// The position of the first `=` in `line` (its length if none).
pub open spec fn first_eq(line: Seq<char>, i: nat) -> nat
    decreases line.len() - i,
{
    if i >= line.len() || line[i as int] == '=' {
        i
    } else {
        first_eq(line, i + 1)
    }
}

/// The settings after one line of the file: a line `key=value` (split at
/// the first `=`) sets the theme for the key `theme`, and turns line
/// numbers or soft wrap on for `line_numbers` or `soft_wrap` when the value
/// is `true` and off otherwise; any other line changes nothing.
pub open spec fn apply_setting_line(st: Settings, line: Seq<char>) -> Settings {
    let k = first_eq(line, 0);
    if k >= line.len() {
        st
    } else {
        let key = line.subrange(0, k as int);
        let value = line.subrange(k + 1int, line.len() as int);
        if key == "theme"@ {
            (value, st.1, st.2)
        } else if key == "line_numbers"@ {
            (st.0, value == "true"@, st.2)
        } else if key == "soft_wrap"@ {
            (st.0, st.1, value == "true"@)
        } else {
            st
        }
    }
}

/// The settings after the lines `ls`, one after the other.
pub open spec fn apply_setting_lines(st: Settings, ls: Seq<Seq<char>>) -> Settings
    decreases ls.len(),
{
    if ls.len() == 0 {
        st
    } else {
        apply_setting_lines(apply_setting_line(st, ls[0]), ls.drop_first())
    }
}

/// The settings that the file text `t` holds.
pub open spec fn settings_of(t: Seq<char>) -> Settings {
    apply_setting_lines(default_settings(), text_lines(t))
}

/// The text of the settings file for the given settings.
pub open spec fn settings_text(theme: Seq<char>, line_numbers: bool, soft_wrap: bool) -> Seq<
    char,
> {
    "theme="@ + theme + "\nline_numbers="@ + (if line_numbers {
        "true"@
    } else {
        "false"@
    }) + "\nsoft_wrap="@ + (if soft_wrap {
        "true"@
    } else {
        "false"@
    }) + "\n"@
}

/// Whether `v` holds the chars of `s`.
fn chars_equal(v: &Vec<char>, s: &str) -> (b: bool)
    ensures
        b == (v@ == s@),
{
    let w = chars_of(s);
    chars_same(v, &w)
}

/// The chars of `v` from `a` to `b`.
fn chars_between(v: &Vec<char>, a: usize, b: usize) -> (r: Vec<char>)
    requires
        a <= b <= v.len(),
    ensures
        r@ == v@.subrange(a as int, b as int),
{
    let mut r: Vec<char> = Vec::new();
    let mut i = a;
    while i < b
        invariant
            a <= i <= b <= v.len(),
            r@ == v@.subrange(a as int, i as int),
        decreases b - i,
    {
        r.push(v[i]);
        i = i + 1;
        assert(r@ =~= v@.subrange(a as int, i as int));
    }
    r
}

/// The settings after one line of the file (see `apply_setting_line`).
fn apply_line(st: (String, bool, bool), line: &Vec<char>) -> (r: (String, bool, bool))
    ensures
        (r.0@, r.1, r.2) == apply_setting_line((st.0@, st.1, st.2), line@),
{
    let mut k: usize = 0;
    while k < line.len() && line[k] != '='
        invariant
            k <= line.len(),
            first_eq(line@, 0) == first_eq(line@, k as nat),
        decreases line.len() - k,
    {
        k = k + 1;
    }
    if k >= line.len() {
        return st;
    }
    let key = chars_between(line, 0, k);
    let value = chars_between(line, k + 1, line.len());
    if chars_equal(&key, "theme") {
        (string_of(&value), st.1, st.2)
    } else if chars_equal(&key, "line_numbers") {
        let on = chars_equal(&value, "true");
        (st.0, on, st.2)
    } else if chars_equal(&key, "soft_wrap") {
        let on = chars_equal(&value, "true");
        (st.0, st.1, on)
    } else {
        st
    }
}

/// The settings that the file text `content` holds (see `settings_of`).
fn parse_settings(content: &str) -> (r: (String, bool, bool))
    ensures
        (r.0@, r.1, r.2) == settings_of(content@),
{
    let t = chars_of(content);
    let mut st = (String::from_str("base16-ocean.dark"), false, false);
    let mut cur: Vec<char> = Vec::new();
    let mut i: usize = 0;
    proof {
        reveal_strlit("base16-ocean.dark");
    }
    while i < t.len()
        invariant
            i <= t.len(),
            t@ == content@,
            settings_of(content@) == apply_setting_lines(
                (st.0@, st.1, st.2),
                lines_from(t@, i as nat, cur@),
            ),
        decreases t.len() - i,
    {
        let ghost before = lines_from(t@, i as nat, cur@);
        if t[i] == '\n' {
            let n = cur.len();
            if n > 0 && cur[n - 1] == '\r' {
                cur.pop();
            }
            proof {
                assert(before == seq![cur@] + lines_from(t@, (i + 1) as nat, Seq::empty()));
                assert((seq![cur@] + lines_from(t@, (i + 1) as nat, Seq::empty())).drop_first()
                    =~= lines_from(t@, (i + 1) as nat, Seq::empty()));
            }
            st = apply_line(st, &cur);
            cur = Vec::new();
        } else {
            cur.push(t[i]);
        }
        i = i + 1;
    }
    if cur.len() > 0 {
        let ghost st0 = (st.0@, st.1, st.2);
        proof {
            assert(lines_from(t@, i as nat, cur@) == seq![cur@]);
            assert(seq![cur@].drop_first() =~= Seq::<Seq<char>>::empty());
            assert(apply_setting_lines(st0, seq![cur@]) == apply_setting_lines(
                apply_setting_line(st0, cur@),
                Seq::empty(),
            ));
        }
        st = apply_line(st, &cur);
    } else {
        assert(lines_from(t@, i as nat, cur@) == Seq::<Seq<char>>::empty());
    }
    st
}

/// The text of the settings file for the given settings.
fn settings_file_text(theme: &str, line_numbers: bool, soft_wrap: bool) -> (s: String)
    ensures
        s@ == settings_text(theme@, line_numbers, soft_wrap),
{
    let mut v: Vec<char> = Vec::new();
    push_str(&mut v, "theme=");
    push_str(&mut v, theme);
    push_str(&mut v, "\nline_numbers=");
    if line_numbers {
        push_str(&mut v, "true");
    } else {
        push_str(&mut v, "false");
    }
    push_str(&mut v, "\nsoft_wrap=");
    if soft_wrap {
        push_str(&mut v, "true");
    } else {
        push_str(&mut v, "false");
    }
    push_str(&mut v, "\n");
    string_of(&v)
}

/// Reading lines from `i` up to an LF at `j`, with no LF between, yields
/// the line `cur` followed by the chars up to `j` (less a CR before the
/// LF), and then the lines after the LF.
proof fn lemma_lines_through_lf(t: Seq<char>, i: nat, j: nat, cur: Seq<char>)
    requires
        i <= j < t.len(),
        t[j as int] == '\n',
        forall|k: int| i <= k < j ==> t[k] != '\n',
    ensures
        lines_from(t, i, cur) == seq![strip_cr(cur + t.subrange(i as int, j as int))] + lines_from(
            t,
            j + 1,
            Seq::empty(),
        ),
    decreases j - i,
{
    if i < j {
        lemma_lines_through_lf(t, i + 1, j, cur.push(t[i as int]));
        assert(cur.push(t[i as int]) + t.subrange(i + 1int, j as int) =~= cur + t.subrange(
            i as int,
            j as int,
        ));
    } else {
        assert(cur + t.subrange(i as int, j as int) =~= cur);
    }
}

/// The first `=` from `i` on is at `k` when `line[k]` is one and none
/// comes before it.
proof fn lemma_first_eq_at(line: Seq<char>, i: nat, k: nat)
    requires
        i <= k < line.len(),
        line[k as int] == '=',
        forall|q: int| i <= q < k ==> line[q] != '=',
    ensures
        first_eq(line, i) == k,
    decreases k - i,
{
    if i < k {
        lemma_first_eq_at(line, i + 1, k);
    }
}

/// A line `key=value` whose key holds no `=` splits at the end of the key.
proof fn lemma_setting_line(st: Settings, key: Seq<char>, value: Seq<char>)
    requires
        forall|q: int| 0 <= q < key.len() ==> key[q] != '=',
    ensures
        ({
            let line = key + "="@ + value;
            apply_setting_line(st, line) == if key == "theme"@ {
                (value, st.1, st.2)
            } else if key == "line_numbers"@ {
                (st.0, value == "true"@, st.2)
            } else if key == "soft_wrap"@ {
                (st.0, st.1, value == "true"@)
            } else {
                st
            }
        }),
{
    reveal_strlit("=");
    let line = key + "="@ + value;
    lemma_first_eq_at(line, 0, key.len());
    assert(line.subrange(0, key.len() as int) =~= key);
    assert(line.subrange(key.len() + 1int, line.len() as int) =~= value);
}

/// The lines of three LF-terminated lines without LFs in them.
proof fn lemma_three_lines(a: Seq<char>, b: Seq<char>, c: Seq<char>)
    requires
        forall|k: int| 0 <= k < a.len() ==> a[k] != '\n',
        forall|k: int| 0 <= k < b.len() ==> b[k] != '\n',
        forall|k: int| 0 <= k < c.len() ==> c[k] != '\n',
    ensures
        text_lines(a + seq!['\n'] + b + seq!['\n'] + c + seq!['\n']) == seq![
            strip_cr(a),
            strip_cr(b),
            strip_cr(c),
        ],
{
    let t = a + seq!['\n'] + b + seq!['\n'] + c + seq!['\n'];
    let j1 = a.len();
    let j2 = j1 + 1 + b.len();
    let j3 = j2 + 1 + c.len();
    assert(t.len() == j3 + 1);
    assert(t.subrange(0, j1 as int) =~= a);
    assert(t.subrange(j1 + 1int, j2 as int) =~= b);
    assert(t.subrange(j2 + 1int, j3 as int) =~= c);
    assert forall|k: int| 0 <= k < j1 implies t[k] != '\n' by {
        assert(t[k] == a[k]);
    }
    assert forall|k: int| j1 + 1 <= k < j2 implies t[k] != '\n' by {
        assert(t[k] == b[k - j1 - 1]);
    }
    assert forall|k: int| j2 + 1 <= k < j3 implies t[k] != '\n' by {
        assert(t[k] == c[k - j2 - 1]);
    }
    assert(t[j1 as int] == '\n' && t[j2 as int] == '\n' && t[j3 as int] == '\n');
    lemma_lines_through_lf(t, 0, j1, Seq::empty());
    lemma_lines_through_lf(t, j1 + 1, j2, Seq::empty());
    lemma_lines_through_lf(t, j2 + 1, j3, Seq::empty());
    assert(Seq::<char>::empty() + a =~= a);
    assert(Seq::<char>::empty() + b =~= b);
    assert(Seq::<char>::empty() + c =~= c);
    assert(lines_from(t, j3 + 1, Seq::empty()) == Seq::<Seq<char>>::empty());
    assert(text_lines(t) =~= seq![strip_cr(a), strip_cr(b), strip_cr(c)]);
}

/// The settings after three lines, one after the other.
proof fn lemma_three_settings(st: Settings, a: Seq<char>, b: Seq<char>, c: Seq<char>)
    ensures
        apply_setting_lines(st, seq![a, b, c]) == apply_setting_line(
            apply_setting_line(apply_setting_line(st, a), b),
            c,
        ),
{
    assert(seq![a, b, c].drop_first() =~= seq![b, c]);
    assert(seq![b, c].drop_first() =~= seq![c]);
    assert(seq![c].drop_first() =~= Seq::<Seq<char>>::empty());
    let s1 = apply_setting_line(st, a);
    let s2 = apply_setting_line(s1, b);
    let s3 = apply_setting_line(s2, c);
    assert(apply_setting_lines(s3, Seq::empty()) == s3);
    assert(apply_setting_lines(s2, seq![c]) == s3);
    assert(apply_setting_lines(s1, seq![b, c]) == s3);
    assert(seq![a, b, c][0] == a);
}

/// What the settings file holds is read back as written: the settings
/// read from the text written for a theme, line numbers and soft wrap are
/// those three, for a theme name with no LF in it that does not end with a
/// CR.
pub proof fn lemma_settings_round_trip(theme: Seq<char>, line_numbers: bool, soft_wrap: bool)
    requires
        forall|k: int| 0 <= k < theme.len() ==> theme[k] != '\n',
        !(theme.len() > 0 && theme.last() == '\r'),
    ensures
        settings_of(settings_text(theme, line_numbers, soft_wrap)) == (theme, line_numbers, soft_wrap),
{
    reveal_strlit("theme=");
    reveal_strlit("\nline_numbers=");
    reveal_strlit("\nsoft_wrap=");
    reveal_strlit("true");
    reveal_strlit("false");
    reveal_strlit("\n");
    reveal_strlit("theme");
    reveal_strlit("line_numbers");
    reveal_strlit("soft_wrap");
    reveal_strlit("=");
    let v1: Seq<char> = if line_numbers { "true"@ } else { "false"@ };
    let v2: Seq<char> = if soft_wrap { "true"@ } else { "false"@ };
    let l1 = "theme"@ + "="@ + theme;
    let l2 = "line_numbers"@ + "="@ + v1;
    let l3 = "soft_wrap"@ + "="@ + v2;
    let t = settings_text(theme, line_numbers, soft_wrap);
    assert(t =~= l1 + seq!['\n'] + l2 + seq!['\n'] + l3 + seq!['\n']);
    assert forall|k: int| 0 <= k < l1.len() implies l1[k] != '\n' by {
        if k >= 6 {
            assert(l1[k] == theme[k - 6]);
        }
    }
    lemma_three_lines(l1, l2, l3);
    assert(strip_cr(l1) == l1);
    assert(strip_cr(l2) == l2);
    assert(strip_cr(l3) == l3);
    lemma_three_settings(default_settings(), l1, l2, l3);
    lemma_setting_line(default_settings(), "theme"@, theme);
    lemma_setting_line((theme, false, false), "line_numbers"@, v1);
    lemma_setting_line((theme, line_numbers, false), "soft_wrap"@, v2);
}

/// `a` comes before `b`, or equals it, in the order of `String`: char by
/// char by code point, a prefix first.
pub open spec fn lex_le(a: Seq<char>, b: Seq<char>) -> bool
    decreases a.len(),
{
    if a.len() == 0 {
        true
    } else if b.len() == 0 {
        false
    } else if a[0] != b[0] {
        (a[0] as int) < (b[0] as int)
    } else {
        lex_le(a.drop_first(), b.drop_first())
    }
}

/// `a` comes strictly before `b`.
pub open spec fn lex_lt(a: Seq<char>, b: Seq<char>) -> bool {
    lex_le(a, b) && a != b
}

/// The order is total.
pub proof fn lemma_lex_total(a: Seq<char>, b: Seq<char>)
    ensures
        lex_le(a, b) || lex_le(b, a),
    decreases a.len(),
{
    if a.len() > 0 && b.len() > 0 && a[0] == b[0] {
        lemma_lex_total(a.drop_first(), b.drop_first());
    }
}

/// Two names that come before each other are the same.
pub proof fn lemma_lex_antisymmetric(a: Seq<char>, b: Seq<char>)
    requires
        lex_le(a, b),
        lex_le(b, a),
    ensures
        a == b,
    decreases a.len(),
{
    if a.len() > 0 && b.len() > 0 {
        if a[0] == b[0] {
            lemma_lex_antisymmetric(a.drop_first(), b.drop_first());
            assert(a =~= seq![a[0]] + a.drop_first());
            assert(b =~= seq![b[0]] + b.drop_first());
        } else {
            assert((a[0] as int) != (b[0] as int));
        }
    } else {
        assert(a =~= b);
    }
}

/// The order is transitive.
pub proof fn lemma_lex_transitive(a: Seq<char>, b: Seq<char>, c: Seq<char>)
    requires
        lex_le(a, b),
        lex_le(b, c),
    ensures
        lex_le(a, c),
    decreases a.len(),
{
    if a.len() > 0 && b.len() > 0 && c.len() > 0 && a[0] == b[0] && b[0] == c[0] {
        lemma_lex_transitive(a.drop_first(), b.drop_first(), c.drop_first());
    }
}

/// Whether `a` comes before `b` or equals it (see `lex_le`).
pub(crate) fn chars_le(a: &Vec<char>, b: &Vec<char>) -> (r: bool)
    ensures
        r == lex_le(a@, b@),
{
    let mut i: usize = 0;
    assert(a@.skip(0) =~= a@);
    assert(b@.skip(0) =~= b@);
    while i < a.len() && i < b.len() && a[i] == b[i]
        invariant
            i <= a.len(),
            i <= b.len(),
            lex_le(a@, b@) == lex_le(a@.skip(i as int), b@.skip(i as int)),
        decreases a.len() - i,
    {
        assert(a@.skip(i as int).drop_first() =~= a@.skip(i + 1int));
        assert(b@.skip(i as int).drop_first() =~= b@.skip(i + 1int));
        i = i + 1;
    }
    if i == a.len() {
        true
    } else if i == b.len() {
        false
    } else {
        assert(a@.skip(i as int)[0] == a@[i as int]);
        assert(b@.skip(i as int)[0] == b@[i as int]);
        let x = a[i];
        let y = b[i];
        x < y
    }
}

/// Whether `a` and `b` hold the same chars.
pub(crate) fn chars_same(a: &Vec<char>, b: &Vec<char>) -> (r: bool)
    ensures
        r == (a@ == b@),
{
    if a.len() != b.len() {
        return false;
    }
    let mut i: usize = 0;
    while i < a.len()
        invariant
            i <= a.len() == b.len(),
            forall|j: int| 0 <= j < i ==> a@[j] == b@[j],
        decreases a.len() - i,
    {
        if a[i] != b[i] {
            return false;
        }
        i = i + 1;
    }
    assert(a@ =~= b@);
    true
}

/// The theme that follows `cur` among the names `ns`, in the order of
/// names, after the last name the first: `r` is the least name after `cur`,
/// or the least name of all when none comes after `cur`.
pub open spec fn is_next_name(ns: Seq<Seq<char>>, cur: Seq<char>, r: Seq<char>) -> bool {
    &&& ns.contains(r)
    &&& if exists|i: int| 0 <= i < ns.len() && lex_lt(cur, #[trigger] ns[i]) {
        &&& lex_lt(cur, r)
        &&& forall|i: int| 0 <= i < ns.len() && lex_lt(cur, #[trigger] ns[i]) ==> lex_le(r, ns[i])
    } else {
        forall|i: int| 0 <= i < ns.len() ==> lex_le(r, #[trigger] ns[i])
    }
}

/// The names held by `names`.
pub open spec fn name_views(names: Seq<String>) -> Seq<Seq<char>> {
    names.map_values(|s: String| s@)
}

/// The position of the theme that follows `cur` among `names` (see
/// `is_next_name`), if `cur` is one of them.
pub fn next_theme_index(names: &Vec<String>, cur: &str) -> (r: Option<usize>)
    ensures
        r is None <==> !name_views(names@).contains(cur@),
        r matches Some(k) ==> k < names@.len() && is_next_name(
            name_views(names@),
            cur@,
            names@[k as int]@,
        ),
{
    let c = chars_of(cur);
    let ghost ns = name_views(names@);
    let mut found = false;
    let mut least: usize = 0;
    let mut after: Option<usize> = None;
    let mut views: Vec<Vec<char>> = Vec::new();
    let mut i: usize = 0;
    while i < names.len()
        invariant
            i <= names.len(),
            ns == name_views(names@),
            c@ == cur@,
            views@.len() == i,
            forall|j: int| 0 <= j < i ==> (#[trigger] views@[j])@ == ns[j],
            found <==> exists|j: int| 0 <= j < i && ns[j] == cur@,
            i > 0 ==> least < i && forall|j: int| 0 <= j < i ==> lex_le(ns[least as int], #[trigger] ns[j]),
            after matches Some(k) ==> k < i && lex_lt(cur@, ns[k as int]) && forall|j: int|
                0 <= j < i && lex_lt(cur@, #[trigger] ns[j]) ==> lex_le(ns[k as int], ns[j]),
            after is None ==> forall|j: int| 0 <= j < i ==> !lex_lt(cur@, #[trigger] ns[j]),
        decreases names.len() - i,
    {
        let v = chars_of(names[i].as_str());
        assert(v@ == ns[i as int]);
        if chars_same(&v, &c) {
            found = true;
        }
        if i == 0 {
            least = 0;
            proof {
                lemma_lex_total(v@, v@);
            }
        } else if !chars_le(&views[least], &v) {
            proof {
                lemma_lex_total(v@, ns[least as int]);
                assert forall|j: int| 0 <= j <= i implies lex_le(v@, #[trigger] ns[j]) by {
                    if j < i {
                        lemma_lex_transitive(v@, ns[least as int], ns[j]);
                    } else {
                        lemma_lex_total(v@, v@);
                    }
                }
            }
            least = i;
        }
        if chars_le(&c, &v) && !chars_same(&c, &v) {
            match after {
                Some(k) => {
                    if !chars_le(&views[k], &v) {
                        proof {
                            lemma_lex_total(v@, ns[k as int]);
                            assert forall|j: int|
                                0 <= j <= i && lex_lt(cur@, #[trigger] ns[j]) implies lex_le(
                                v@,
                                ns[j],
                            ) by {
                                if j < i {
                                    lemma_lex_transitive(v@, ns[k as int], ns[j]);
                                } else {
                                    lemma_lex_total(v@, v@);
                                }
                            }
                        }
                        after = Some(i);
                    }
                },
                None => {
                    proof {
                        lemma_lex_total(v@, v@);
                    }
                    after = Some(i);
                },
            }
        }
        views.push(v);
        i = i + 1;
    }
    if !found {
        assert(!ns.contains(cur@)) by {
            if ns.contains(cur@) {
                let j = choose|j: int| 0 <= j < ns.len() && ns[j] == cur@;
            }
        }
        return None;
    }
    assert(ns.contains(cur@));
    match after {
        Some(k) => Some(k),
        None => Some(least),
    }
}

/// A colour by its red, green and blue parts.
#[derive(PartialEq, Eq, Structural, Clone, Copy, Debug)]
pub struct Rgb {
    pub r: u8,
    pub g: u8,
    pub b: u8,
}

/// The colours of the editor's own interface: the text's background and
/// foreground, the menu and title background, the background of a
/// selection, the accent of the menu's keys, and whether the theme is dark.
#[derive(PartialEq, Eq, Structural, Clone, Copy, Debug)]
pub struct UiColors {
    pub bg: Rgb,
    pub fg: Rgb,
    pub menu_bg: Rgb,
    pub selected_bg: Rgb,
    pub accent: Rgb,
    pub is_dark: bool,
}

/// A scope rule of a theme: its selector as text, and its foreground.
pub struct ScopeStyle {
    pub selector: String,
    pub foreground: Option<Rgb>,
}

/// What a theme says of colours: its background and foreground, its scope
/// rules in order, and its name.
pub struct ThemeColors {
    pub background: Option<Rgb>,
    pub foreground: Option<Rgb>,
    pub scopes: Vec<ScopeStyle>,
    pub name: Option<String>,
}

/// Each part of `c` moved by `d`, up (stopping at 255) or down (stopping
/// at 0).
pub open spec fn shifted(c: Rgb, up: bool, d: u8) -> Rgb {
    if up {
        Rgb { r: c.r.saturating_add(d), g: c.g.saturating_add(d), b: c.b.saturating_add(d) }
    } else {
        Rgb { r: c.r.saturating_sub(d), g: c.g.saturating_sub(d), b: c.b.saturating_sub(d) }
    }
}

/// The scope rule marks a function name or a variable and has a
/// foreground.
pub open spec fn accent_scope(s: ScopeStyle) -> bool {
    &&& (contains(lowercase(s.selector@), "entity.name.function"@) || contains(
        lowercase(s.selector@),
        "variable"@,
    ))
    &&& s.foreground is Some
}

/// The accent colour that the scope rules from `i` on give: the
/// foreground of the first rule for a function name or a variable that has
/// one.
pub open spec fn scope_accent(scopes: Seq<ScopeStyle>, i: nat) -> Option<Rgb>
    decreases scopes.len() - i,
{
    if i >= scopes.len() {
        None
    } else if accent_scope(scopes[i as int]) {
        scopes[i as int].foreground
    } else {
        scope_accent(scopes, i + 1)
    }
}

/// The interface colours for a theme: the background (black by default)
/// lightened by 20 for the menus when dark (its parts summing to less than
/// 384), darkened when light; a selection lightened by 40 when the red part
/// is below 128, darkened otherwise; the accent from the scope rules, or a
/// light or dark blue, but a Catppuccin yellow for Catppuccin themes and a
/// golden yellow or rust red for base16 themes.
pub open spec fn ui_colors_for(t: ThemeColors) -> UiColors {
    let bg = match t.background {
        Some(c) => c,
        None => Rgb { r: 0, g: 0, b: 0 },
    };
    let fg = match t.foreground {
        Some(c) => c,
        None => Rgb { r: 255, g: 255, b: 255 },
    };
    let is_dark = bg.r + bg.g + bg.b < 384;
    let found = match scope_accent(t.scopes@, 0) {
        Some(c) => c,
        None => if is_dark {
            Rgb { r: 100, g: 200, b: 255 }
        } else {
            Rgb { r: 20, g: 100, b: 180 }
        },
    };
    let accent = match t.name {
        Some(n) => if contains(lowercase(n@), "catppuccin"@) {
            if is_dark {
                Rgb { r: 249, g: 226, b: 175 }
            } else {
                Rgb { r: 223, g: 142, b: 29 }
            }
        } else if contains(lowercase(n@), "base16"@) {
            if is_dark {
                Rgb { r: 250, g: 188, b: 45 }
            } else {
                Rgb { r: 200, g: 60, b: 20 }
            }
        } else {
            found
        },
        None => found,
    };
    UiColors {
        bg,
        fg,
        menu_bg: shifted(bg, is_dark, 20),
        selected_bg: shifted(bg, bg.r < 128, 40),
        accent,
        is_dark,
    }
}

/// Each part of `c` moved by `d`, up or down (see `shifted`).
fn shift(c: Rgb, up: bool, d: u8) -> (r: Rgb)
    ensures
        r == shifted(c, up, d),
{
    if up {
        Rgb { r: c.r.saturating_add(d), g: c.g.saturating_add(d), b: c.b.saturating_add(d) }
    } else {
        Rgb { r: c.r.saturating_sub(d), g: c.g.saturating_sub(d), b: c.b.saturating_sub(d) }
    }
}

/// The accent colour that the scope rules give (see `scope_accent`).
fn find_scope_accent(scopes: &Vec<ScopeStyle>) -> (r: Option<Rgb>)
    ensures
        r == scope_accent(scopes@, 0),
{
    let mut i: usize = 0;
    while i < scopes.len()
        invariant
            i <= scopes.len(),
            scope_accent(scopes@, 0) == scope_accent(scopes@, i as nat),
        decreases scopes.len() - i,
    {
        let s = &scopes[i];
        let lower = to_lowercase(s.selector.as_str());
        let hit = str_contains(lower.as_str(), "entity.name.function") || str_contains(
            lower.as_str(),
            "variable",
        );
        if hit {
            match s.foreground {
                Some(c) => {
                    return Some(c);
                },
                None => {},
            }
        }
        i = i + 1;
    }
    None
}

/// The settings file, the interface colours and the theme cycle of the
/// editor.
pub trait ConfigExt {
    /// The settings that the file text `content` holds.
    fn load_config(content: &str) -> (String, bool, bool);

    /// The text of the settings file for the editor's settings.
    fn config_text(&self) -> String;

    /// The interface colours for a theme.
    fn derive_ui_colors(theme: &ThemeColors) -> UiColors;

    /// Moves to the theme that follows the current one among `names`, the
    /// names of the themes there are; returns whether the current theme
    /// is among them (else nothing changes).
    fn cycle_theme(&mut self, names: &Vec<String>) -> bool;
}

impl ConfigExt for Editor {
    /// The theme (by default `base16-ocean.dark`), and whether line
    /// numbers and soft wrap are on (by default off).
    fn load_config(content: &str) -> (r: (String, bool, bool))
        ensures
            (r.0@, r.1, r.2) == settings_of(content@),
    {
        parse_settings(content)
    }

    fn config_text(&self) -> (s: String)
        ensures
            s@ == settings_text(self.current_theme@, self.show_line_numbers, self.soft_wrap),
    {
        settings_file_text(self.current_theme.as_str(), self.show_line_numbers, self.soft_wrap)
    }

    fn derive_ui_colors(theme: &ThemeColors) -> (c: UiColors)
        ensures
            c == ui_colors_for(*theme),
    {
        let bg = match theme.background {
            Some(c) => c,
            None => Rgb { r: 0, g: 0, b: 0 },
        };
        let fg = match theme.foreground {
            Some(c) => c,
            None => Rgb { r: 255, g: 255, b: 255 },
        };
        let sum: u32 = bg.r as u32 + bg.g as u32 + bg.b as u32;
        let is_dark = sum < 384;
        let found = match find_scope_accent(&theme.scopes) {
            Some(c) => c,
            None => if is_dark {
                Rgb { r: 100, g: 200, b: 255 }
            } else {
                Rgb { r: 20, g: 100, b: 180 }
            },
        };
        let accent = match &theme.name {
            Some(n) => {
                let lower = to_lowercase(n.as_str());
                if str_contains(lower.as_str(), "catppuccin") {
                    if is_dark {
                        Rgb { r: 249, g: 226, b: 175 }
                    } else {
                        Rgb { r: 223, g: 142, b: 29 }
                    }
                } else if str_contains(lower.as_str(), "base16") {
                    if is_dark {
                        Rgb { r: 250, g: 188, b: 45 }
                    } else {
                        Rgb { r: 200, g: 60, b: 20 }
                    }
                } else {
                    found
                }
            },
            None => found,
        };
        UiColors {
            bg,
            fg,
            menu_bg: shift(bg, is_dark, 20),
            selected_bg: shift(bg, bg.r < 128, 40),
            accent,
            is_dark,
        }
    }

    /// The theme that follows is the least name after the current one, or
    /// the least of all after the last (see `is_next_name`); the status line
    /// reports it and highlighting is redone.
    fn cycle_theme(&mut self, names: &Vec<String>) -> (changed: bool)
        ensures
            changed == name_views(names@).contains(old(self).current_theme@),
            changed ==> is_next_name(
                name_views(names@),
                old(self).current_theme@,
                final(self).current_theme@,
            ) && final(self).status_message@ == "Theme changed to: "@ + final(self).current_theme@
                && *final(self) == (Editor {
                current_theme: final(self).current_theme,
                status_message: final(self).status_message,
                status_timed: true,
                status_fresh: true,
                cache_stale: true,
                ..*old(self)
            }),
            !changed ==> *final(self) == *old(self),
    {
        match next_theme_index(names, self.current_theme.as_str()) {
            Some(k) => {
                self.current_theme = names[k].clone();
                self.clear_cache();
                let mut v: Vec<char> = Vec::new();
                push_str(&mut v, "Theme changed to: ");
                push_str(&mut v, self.current_theme.as_str());
                self.set_status(string_of(&v));
                true
            },
            None => false,
        }
    }
}

/// Moving to the next theme changes the theme whenever there are two
/// different names or more.
pub proof fn lemma_next_name_moves(ns: Seq<Seq<char>>, cur: Seq<char>, r: Seq<char>, i: int, j: int)
    requires
        ns.contains(cur),
        is_next_name(ns, cur, r),
        0 <= i < ns.len(),
        0 <= j < ns.len(),
        ns[i] != ns[j],
    ensures
        r != cur,
{
    if !exists|k: int| 0 <= k < ns.len() && lex_lt(cur, #[trigger] ns[k]) {
        if r == cur {
            assert(lex_le(cur, ns[i]) && lex_le(cur, ns[j]));
            assert(!lex_lt(cur, ns[i]) && !lex_lt(cur, ns[j]));
        }
    }
}

/// The theme that follows is determined: two names that both follow `cur`
/// among `ns` are the same.
pub proof fn lemma_next_name_unique(ns: Seq<Seq<char>>, cur: Seq<char>, r1: Seq<char>, r2: Seq<char>)
    requires
        is_next_name(ns, cur, r1),
        is_next_name(ns, cur, r2),
    ensures
        r1 == r2,
{
    let i1 = choose|i: int| 0 <= i < ns.len() && ns[i] == r1;
    let i2 = choose|i: int| 0 <= i < ns.len() && ns[i] == r2;
    assert(lex_le(r1, ns[i2]) && lex_le(r2, ns[i1]));
    lemma_lex_antisymmetric(r1, r2);
}

} // verus!
