//! The file browser's listing: which entries it shows, in which order, and
//! how each row reads.
use vstd::prelude::*;
use crate::config::{chars_le, chars_same, lex_lt};
use crate::justify::{char_utf8_width, utf8_len, utf8_width};
use crate::text::{chars_of, lowercase, push_str, string_of, to_lowercase};
use crate::ui::{push_spaces, spaces};
use vstd::string::*;

verus! {

/// An entry of a directory: its name, and whether it is a directory.
pub struct BrowserEntry {
    pub name: String,
    pub is_dir: bool,
}

/// An entry as a name and a directory flag.
pub type EntryView = (Seq<char>, bool);

/// The entries as names and directory flags.
pub open spec fn entry_views(v: Seq<BrowserEntry>) -> Seq<EntryView> {
    v.map_values(|e: BrowserEntry| (e.name@, e.is_dir))
}

/// The key an entry is sorted by: its name in lower case.
pub open spec fn entry_key(e: EntryView) -> Seq<char> {
    lowercase(e.0)
}

/// The first position from `i` on whose entry sorts after key `k` (the
/// length if none).
pub open spec fn first_after(s: Seq<EntryView>, k: Seq<char>, i: nat) -> nat
    decreases s.len() - i,
{
    if i >= s.len() || lex_lt(k, entry_key(s[i as int])) {
        i
    } else {
        first_after(s, k, i + 1)
    }
}

/// `s` with `x` put after the entries that do not sort after it.
pub open spec fn insert_entry(s: Seq<EntryView>, x: EntryView) -> Seq<EntryView> {
    s.insert(first_after(s, entry_key(x), 0) as int, x)
}

/// The entries `s` sorted by key, entries with equal keys kept in their
/// order: each entry in turn is put after those that do not sort after it.
pub open spec fn sort_entries(s: Seq<EntryView>) -> Seq<EntryView>
    decreases s.len(),
{
    if s.len() == 0 {
        s
    } else {
        insert_entry(sort_entries(s.drop_last()), s.last())
    }
}

/// The name begins with a dot.
pub open spec fn is_dot(name: Seq<char>) -> bool {
    name.len() > 0 && name[0] == '.'
}

/// The listing of a directory whose entries are `raw` (in the order read):
/// `.`, then `..` where there is a parent, then the directories, the files,
/// the dot directories and the dot files, each group sorted by name in
/// lower case.
pub open spec fn listing(has_parent: bool, raw: Seq<EntryView>) -> Seq<EntryView> {
    let head: Seq<EntryView> = if has_parent {
        seq![("."@, true), (".."@, true)]
    } else {
        seq![("."@, true)]
    };
    head + sort_entries(raw.filter(|e: EntryView| in_group(e, true, false))) + sort_entries(
        raw.filter(|e: EntryView| in_group(e, false, false)),
    ) + sort_entries(raw.filter(|e: EntryView| in_group(e, true, true))) + sort_entries(
        raw.filter(|e: EntryView| in_group(e, false, true)),
    )
}

/// Whether an entry with these traits belongs to the group of
/// directories (or files) with (or without) a leading dot.
pub open spec fn in_group(e: EntryView, dirs: bool, dots: bool) -> bool {
    e.1 == dirs && is_dot(e.0) == dots
}

/// The entries of `raw` in one group, sorted (see `listing`).
fn sorted_group(raw: &Vec<BrowserEntry>, dirs: bool, dots: bool) -> (out: Vec<BrowserEntry>)
    ensures
        entry_views(out@) == sort_entries(
            entry_views(raw@).filter(|e: EntryView| in_group(e, dirs, dots)),
        ),
{
    let ghost pred = |e: EntryView| in_group(e, dirs, dots);
    let ghost rv = entry_views(raw@);
    let mut out: Vec<BrowserEntry> = Vec::new();
    let mut keys: Vec<Vec<char>> = Vec::new();
    let mut i: usize = 0;
    while i < raw.len()
        invariant
            i <= raw.len(),
            rv == entry_views(raw@),
            pred == (|e: EntryView| in_group(e, dirs, dots)),
            entry_views(out@) == sort_entries(rv.take(i as int).filter(pred)),
            keys@.len() == out@.len(),
            forall|j: int| 0 <= j < keys@.len() ==> (#[trigger] keys@[j])@ == entry_key(
                entry_views(out@)[j],
            ),
        decreases raw.len() - i,
    {
        let ghost before = rv.take(i as int);
        assert(rv.take(i + 1int) =~= before.push(rv[i as int]));
        proof {
            before.lemma_filter_push(rv[i as int], pred);
        }
        let e = &raw[i];
        let first = chars_of(e.name.as_str());
        let dot = first.len() > 0 && first[0] == '.';
        assert(dot == is_dot(e.name@));
        assert(rv[i as int] == (e.name@, e.is_dir));
        if e.is_dir == dirs && dot == dots {
            let lower = to_lowercase(e.name.as_str());
            let k = chars_of(lower.as_str());
            let ghost s = entry_views(out@);
            let ghost x = rv[i as int];
            assert(x == (e.name@, e.is_dir));
            assert(in_group(x, dirs, dots));
            assert(pred(x));
            assert(before.filter(pred).push(x).drop_last() =~= before.filter(pred));
            let mut p: usize = 0;
            while p < keys.len() && !str_after(&k, &keys[p])
                invariant
                    p <= keys@.len() == out@.len(),
                    s == entry_views(out@),
                    k@ == entry_key(x),
                    forall|j: int| 0 <= j < keys@.len() ==> (#[trigger] keys@[j])@ == entry_key(
                        s[j],
                    ),
                    first_after(s, entry_key(x), 0) == first_after(s, entry_key(x), p as nat),
                decreases keys@.len() - p,
            {
                p = p + 1;
            }
            let item = BrowserEntry { name: e.name.clone(), is_dir: e.is_dir };
            out.insert(p, item);
            keys.insert(p, k);
            assert(entry_views(out@) =~= s.insert(p as int, x));
        } else {
            assert(!in_group(rv[i as int], dirs, dots));
            assert(!pred(rv[i as int]));
        }
        i = i + 1;
    }
    assert(rv.take(raw.len() as int) =~= rv);
    out
}

/// Whether key `k` sorts after key `other`.
fn str_after(k: &Vec<char>, other: &Vec<char>) -> (b: bool)
    ensures
        b == lex_lt(k@, other@),
{
    let le = chars_le(k, other);
    if !le {
        return false;
    }
    !chars_same(k, other)
}

/// The listing of a directory whose entries are `raw` (see `listing`);
/// `has_parent` says whether the directory has a parent.
pub fn browser_entries(has_parent: bool, raw: &Vec<BrowserEntry>) -> (out: Vec<BrowserEntry>)
    ensures
        entry_views(out@) == listing(has_parent, entry_views(raw@)),
{
    let mut out: Vec<BrowserEntry> = Vec::new();
    out.push(BrowserEntry { name: String::from_str("."), is_dir: true });
    if has_parent {
        out.push(BrowserEntry { name: String::from_str(".."), is_dir: true });
    }
    let ghost head = entry_views(out@);
    let mut dirs = sorted_group(raw, true, false);
    let mut files = sorted_group(raw, false, false);
    let mut dot_dirs = sorted_group(raw, true, true);
    let mut dot_files = sorted_group(raw, false, true);
    let ghost g1 = entry_views(dirs@);
    let ghost g2 = entry_views(files@);
    let ghost g3 = entry_views(dot_dirs@);
    let ghost g4 = entry_views(dot_files@);
    out.append(&mut dirs);
    out.append(&mut files);
    out.append(&mut dot_dirs);
    out.append(&mut dot_files);
    proof {
        reveal_strlit(".");
        reveal_strlit("..");
        if has_parent {
            assert(head =~= seq![("."@, true), (".."@, true)]);
        } else {
            assert(head =~= seq![("."@, true)]);
        }
        assert(entry_views(out@) =~= head + g1 + g2 + g3 + g4);
    }
    out
}

/// The number of leading chars of `d` from `k` on that take at most `n`
/// bytes in UTF-8, counted from the start.
pub open spec fn fitting_prefix(d: Seq<char>, n: nat, k: nat) -> nat
    decreases d.len() - k,
{
    if k < d.len() && utf8_len(d.take(k + 1int)) <= n {
        fitting_prefix(d, n, k + 1)
    } else {
        k
    }
}

/// The text of a row before it is cut to the screen: a directory marked
/// `(dir)`, a file indented as far.
pub open spec fn row_label(name: Seq<char>, is_dir: bool) -> Seq<char> {
    (if is_dir {
        "(dir)  "@
    } else {
        "       "@
    }) + name
}

/// A row of the file browser, `cols` bytes wide: the label cut to at most
/// `cols` bytes, then spaces up to `cols` bytes.
pub open spec fn row_text(name: Seq<char>, is_dir: bool, cols: nat) -> Seq<char> {
    let d = row_label(name, is_dir);
    let k = fitting_prefix(d, cols, 0);
    d.take(k as int) + spaces((cols - utf8_len(d.take(k as int))) as nat)
}

/// The label can be cut to `cols` bytes: it is no longer, or a char ends
/// exactly there.
pub open spec fn row_cut_ok(name: Seq<char>, is_dir: bool, cols: nat) -> bool {
    let d = row_label(name, is_dir);
    utf8_len(d) <= cols || exists|k: int| 0 <= k <= d.len() && utf8_len(#[trigger] d.take(k)) == cols
}

/// The chars of the first `k` chars of `d` take `utf8_len` bytes.
proof fn lemma_utf8_take_step(d: Seq<char>, k: nat)
    requires
        k < d.len(),
    ensures
        utf8_len(d.take(k + 1int)) == utf8_len(d.take(k as int)) + utf8_width(d[k as int]),
{
    assert(d.take(k + 1int).drop_last() =~= d.take(k as int));
}

/// A row of the file browser for an entry (see `row_text`).
pub fn browser_row(name: &str, is_dir: bool, cols: u16) -> (s: String)
    requires
        row_cut_ok(name@, is_dir, cols as nat),
    ensures
        s@ == row_text(name@, is_dir, cols as nat),
{
    let mut d: Vec<char> = Vec::new();
    if is_dir {
        push_str(&mut d, "(dir)  ");
    } else {
        push_str(&mut d, "       ");
    }
    push_str(&mut d, name);
    let ghost dv = d@;
    assert(dv == row_label(name@, is_dir));
    let mut k: usize = 0;
    let mut bytes: usize = 0;
    let mut full = false;
    assert(dv.take(0) =~= Seq::<char>::empty());
    while k < d.len() && !full
        invariant
            k <= d.len(),
            d@ == dv,
            bytes == utf8_len(dv.take(k as int)),
            bytes <= cols,
            fitting_prefix(dv, cols as nat, 0) == fitting_prefix(dv, cols as nat, k as nat),
            full ==> k < dv.len() && utf8_len(dv.take(k + 1int)) > cols,
        decreases d.len() - k + (if full { 0int } else { 1int }),
    {
        let w = char_utf8_width(d[k]);
        proof {
            lemma_utf8_take_step(dv, k as nat);
        }
        if bytes + w > cols as usize {
            full = true;
        } else {
            bytes = bytes + w;
            k = k + 1;
        }
    }
    let ghost n = fitting_prefix(dv, cols as nat, 0);
    assert(n == k);
    let mut out: Vec<char> = Vec::new();
    let mut i: usize = 0;
    while i < k
        invariant
            i <= k <= d.len(),
            d@ == dv,
            out@ == dv.take(i as int),
        decreases k - i,
    {
        out.push(d[i]);
        i = i + 1;
        assert(out@ =~= dv.take(i as int));
    }
    push_spaces(&mut out, cols as usize - bytes);
    string_of(&out)
}

/// What Enter on an entry of the browser leads to.
pub enum BrowserChoice {
    /// "." asks for a file name in the listed directory; the input starts
    /// with the directory's path.
    AskName(String),
    /// ".." lists the parent directory.
    Up,
    /// Another directory is listed next: the path of it.
    Open(String),
    /// A file is chosen: its path.
    Pick(String),
}

/// The path of entry `name` in directory `dir`, with `sep` between them
/// unless `dir` is empty or already ends in it.
pub open spec fn joined(dir: Seq<char>, name: Seq<char>, sep: char) -> Seq<char> {
    if dir.len() == 0 {
        name
    } else if dir.last() == sep {
        dir + name
    } else {
        dir + seq![sep] + name
    }
}

/// `dir` ending in `sep`.
pub open spec fn with_sep(dir: Seq<char>, sep: char) -> Seq<char> {
    if dir.len() > 0 && dir.last() == sep {
        dir
    } else {
        dir.push(sep)
    }
}

/// What Enter does on `entry` while directory `dir` is listed, `sep`
/// being the path separator: "." asks for a file name starting from
/// `dir` and a separator, ".." goes up, any other directory is opened, and
/// a file is chosen.
pub fn browser_choice(dir: &str, entry: &BrowserEntry, sep: char) -> (r: BrowserChoice)
    ensures
        match r {
            BrowserChoice::AskName(p) => entry.is_dir && entry.name@ == seq!['.'] && p@
                == with_sep(dir@, sep),
            BrowserChoice::Up => entry.is_dir && entry.name@ == seq!['.', '.'],
            BrowserChoice::Open(p) => entry.is_dir && entry.name@ != seq!['.'] && entry.name@
                != seq!['.', '.'] && p@ == joined(dir@, entry.name@, sep),
            BrowserChoice::Pick(p) => !entry.is_dir && p@ == joined(dir@, entry.name@, sep),
        },
{
    let d = chars_of(dir);
    let n = chars_of(entry.name.as_str());
    let is_dot = n.len() == 1 && n[0] == '.';
    let is_dotdot = n.len() == 2 && n[0] == '.' && n[1] == '.';
    proof {
        if n@.len() == 1 && n@[0] == '.' {
            assert(n@ =~= seq!['.']);
        }
        if n@.len() == 2 && n@[0] == '.' && n@[1] == '.' {
            assert(n@ =~= seq!['.', '.']);
        }
    }
    if entry.is_dir && is_dot {
        let mut v = d;
        if v.len() == 0 || v[v.len() - 1] != sep {
            v.push(sep);
        }
        return BrowserChoice::AskName(string_of(&v));
    }
    if entry.is_dir && is_dotdot {
        return BrowserChoice::Up;
    }
    let mut v = d;
    if v.len() > 0 && v[v.len() - 1] != sep {
        v.push(sep);
    }
    push_str(&mut v, entry.name.as_str());
    proof {
        assert(dir@.len() > 0 ==> dir@.last() == d@[d@.len() - 1]);
    }
    if entry.is_dir {
        BrowserChoice::Open(string_of(&v))
    } else {
        BrowserChoice::Pick(string_of(&v))
    }
}

} // verus!
