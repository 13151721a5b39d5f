//! Small text utilities: converting between strings and char vectors,
//! decimal rendering of numbers, and the std char classifications that the
//! editor relies on.
use vstd::prelude::*;

verus! {

broadcast use vstd::string::group_string_axioms;

/// The chars of a string, in order.
pub fn chars_of(s: &str) -> (v: Vec<char>)
    ensures
        v@ == s@,
{
    let mut v: Vec<char> = Vec::new();
    for c in it: s.chars()
        invariant
            v@ == it.seq().take(it.index() as int),
            it.seq() == s@,
    {
        v.push(c);
        assert(it.seq().take(it.index() + 1) == it.seq().take(it.index() as int).push(c));
    }
    v
}

/// Appends the chars of `s` to `v`.
pub fn push_str(v: &mut Vec<char>, s: &str)
    ensures
        final(v)@ == old(v)@ + s@,
{
    let mut w = chars_of(s);
    v.append(&mut w);
}

/// Appends the decimal rendering of `n` to `v`.
pub fn push_decimal(v: &mut Vec<char>, n: usize)
    ensures
        final(v)@ == old(v)@ + decimal(n as nat),
{
    let mut w = decimal_chars(n);
    v.append(&mut w);
}

/// `Iterator::collect` of the chars of `v` into a `String`: the string
/// holds exactly those chars, in order.
#[verifier::external_body]
pub(crate) fn string_of(v: &Vec<char>) -> (s: String)
    ensures
        s@ == v@,
{
    v.iter().collect()
}

/// The decimal digit `d` (for `d < 10`) as a char.
pub open spec fn digit_char(d: nat) -> char {
    (48 + d) as char
}

/// The decimal rendering of `n`, without leading zeros.
pub open spec fn decimal(n: nat) -> Seq<char>
    decreases n,
{
    if n < 10 {
        seq![digit_char(n)]
    } else {
        decimal(n / 10).push(digit_char(n % 10))
    }
}

/// The decimal rendering of `n`.
pub fn decimal_chars(n: usize) -> (v: Vec<char>)
    ensures
        v@ == decimal(n as nat),
    decreases n,
{
    if n < 10 {
        let d: u8 = n as u8;
        let c: char = (48u8 + d) as char;
        let mut v: Vec<char> = Vec::new();
        v.push(c);
        v
    } else {
        let mut v = decimal_chars(n / 10);
        let d: u8 = (n % 10) as u8;
        let c: char = (48u8 + d) as char;
        v.push(c);
        v
    }
}

/// A number has no more decimal digits than its value, plus one.
pub proof fn lemma_decimal_len_bound(n: nat)
    ensures
        decimal(n).len() <= n + 1,
        decimal(n).len() >= 1,
    decreases n,
{
    if n >= 10 {
        lemma_decimal_len_bound(n / 10);
    }
}

/// The number of decimal digits of `n`.
pub fn decimal_len(n: usize) -> (k: usize)
    ensures
        k == decimal(n as nat).len(),
{
    let v = decimal_chars(n);
    v.len()
}

/// The chars with the Unicode White_Space property: tab, LF, vertical tab,
/// form feed, CR, space, NEL, no-break space, ogham space mark, the spaces
/// U+2000 to U+200A, line and paragraph separator, narrow no-break space,
/// medium mathematical space and ideographic space.
pub open spec fn char_is_whitespace(c: char) -> bool {
    let u = c as u32;
    ||| 0x9 <= u <= 0xD
    ||| u == 0x20
    ||| u == 0x85
    ||| u == 0xA0
    ||| u == 0x1680
    ||| 0x2000 <= u <= 0x200A
    ||| u == 0x2028
    ||| u == 0x2029
    ||| u == 0x202F
    ||| u == 0x205F
    ||| u == 0x3000
}

/// Whether `c` has the White_Space property (see `char_is_whitespace`),
/// as `char::is_whitespace` answers.
pub fn is_whitespace(c: char) -> (b: bool)
    ensures
        b == char_is_whitespace(c),
{
    let u = c as u32;
    (0x9 <= u && u <= 0xD) || u == 0x20 || u == 0x85 || u == 0xA0 || u == 0x1680 || (0x2000 <= u
        && u <= 0x200A) || u == 0x2028 || u == 0x2029 || u == 0x202F || u == 0x205F || u == 0x3000
}

/// What `char::is_alphanumeric` answers for `c` (alphabetic or numeric in
/// Unicode).
pub uninterp spec fn char_is_alphanumeric(c: char) -> bool;

/// `char::is_alphanumeric`: the answer is named `char_is_alphanumeric(c)`;
/// nothing more is claimed of it.
#[verifier::external_body]
pub(crate) fn is_alphanumeric(c: char) -> (b: bool)
    ensures
        b == char_is_alphanumeric(c),
{
    c.is_alphanumeric()
}

/// The chars of general category Cc (control codes): U+0000 to U+001F and
/// U+007F to U+009F.
pub open spec fn char_is_control(c: char) -> bool {
    let u = c as u32;
    u <= 0x1F || 0x7F <= u <= 0x9F
}

/// Whether `c` is a control code (see `char_is_control`), as
/// `char::is_control` answers.
pub fn is_control(c: char) -> (b: bool)
    ensures
        b == char_is_control(c),
{
    let u = c as u32;
    u <= 0x1F || (0x7F <= u && u <= 0x9F)
}

/// What `str::to_lowercase` gives for the chars `s`.
pub uninterp spec fn lowercase(s: Seq<char>) -> Seq<char>;

/// The chars `s` with the ASCII capitals A to Z made small.
pub open spec fn ascii_lowercase(s: Seq<char>) -> Seq<char> {
    s.map_values(|c: char| if 'A' <= c <= 'Z' { ((c as u32) + 32) as char } else { c })
}

/// `s` holds ASCII chars only.
pub open spec fn is_ascii(s: Seq<char>) -> bool {
    forall|i: int| 0 <= i < s.len() ==> (s[i] as u32) < 128
}

/// `str::to_lowercase`: the result's chars are named `lowercase(s@)`; of
/// an ASCII string it is the string with its capitals made small. Of other
/// strings nothing more is claimed (Unicode case mapping can change the
/// number of chars).
#[verifier::external_body]
pub(crate) fn to_lowercase(s: &str) -> (r: String)
    ensures
        r@ == lowercase(s@),
        is_ascii(s@) ==> r@ == ascii_lowercase(s@),
{
    s.to_lowercase()
}

/// `s` without its leading whitespace.
pub open spec fn trim_start(s: Seq<char>) -> Seq<char>
    decreases s.len(),
{
    if s.len() > 0 && char_is_whitespace(s[0]) {
        trim_start(s.drop_first())
    } else {
        s
    }
}

/// `s` without its trailing whitespace.
pub open spec fn trim_end(s: Seq<char>) -> Seq<char>
    decreases s.len(),
{
    if s.len() > 0 && char_is_whitespace(s.last()) {
        trim_end(s.drop_last())
    } else {
        s
    }
}

/// `s` without leading and trailing whitespace, as `str::trim` gives it.
pub open spec fn trim(s: Seq<char>) -> Seq<char> {
    trim_end(trim_start(s))
}

/// The chars of `s` from `a` on, without leading whitespace, begin at the
/// returned index; the whitespace-free part ends at the second one.
pub fn trim_bounds(s: &Vec<char>) -> (r: (usize, usize))
    ensures
        r.0 <= r.1 <= s.len(),
        trim(s@) == s@.subrange(r.0 as int, r.1 as int),
{
    let n = s.len();
    let mut a: usize = 0;
    assert(s@.subrange(0, n as int) == s@);
    while a < n && is_whitespace(s[a])
        invariant
            a <= n == s.len(),
            trim_start(s@) == trim_start(s@.subrange(a as int, n as int)),
        decreases n - a,
    {
        assert(s@.subrange(a as int, n as int).drop_first() == s@.subrange(a + 1, n as int));
        a += 1;
    }
    assert(trim_start(s@) == s@.subrange(a as int, n as int));
    assert(trim(s@) == trim_end(s@.subrange(a as int, n as int)));
    let mut b: usize = n;
    while b > a && is_whitespace(s[b - 1])
        invariant
            a <= b <= n == s.len(),
            trim(s@) == trim_end(s@.subrange(a as int, b as int)),
        decreases b - a,
    {
        assert(s@.subrange(a as int, b as int).drop_last() == s@.subrange(a as int, b - 1));
        b -= 1;
    }
    (a, b)
}

/// An ASCII decimal digit.
pub open spec fn is_digit(c: char) -> bool {
    '0' <= c <= '9'
}

/// The number that the ASCII digits `s` spell.
pub open spec fn digits_value(s: Seq<char>) -> nat
    decreases s.len(),
{
    if s.len() == 0 {
        0
    } else {
        digits_value(s.drop_last()) * 10 + (s.last() as nat - 48) as nat
    }
}

/// What `str::parse::<usize>` gives for `s`: an optional `+` and then one
/// or more ASCII digits whose value fits a `usize`.
pub open spec fn parse_usize(s: Seq<char>) -> Option<nat> {
    parse_digits(
        if s.len() > 0 && s[0] == '+' {
            s.drop_first()
        } else {
            s
        },
    )
}

/// One or more ASCII digits whose value fits a `usize`, and that value.
pub open spec fn parse_digits(d: Seq<char>) -> Option<nat> {
    if d.len() > 0 && (forall|i: int| 0 <= i < d.len() ==> is_digit(#[trigger] d[i]))
        && digits_value(d) <= usize::MAX {
        Some(digits_value(d))
    } else {
        None
    }
}

proof fn lemma_digits_value_grows(s: Seq<char>, k: int)
    requires
        0 <= k <= s.len(),
        forall|i: int| 0 <= i < s.len() ==> is_digit(#[trigger] s[i]),
    ensures
        digits_value(s.take(k)) <= digits_value(s),
    decreases s.len() - k,
{
    if k < s.len() {
        lemma_digits_value_grows(s, k + 1);
        assert(s.take(k + 1).drop_last() == s.take(k));
        assert(is_digit(s[k]));
    } else {
        assert(s.take(k) == s);
    }
}

/// Parses a line number as `input.trim().parse::<usize>()` does.
pub fn parse_trimmed_usize(input: &str) -> (r: Option<usize>)
    ensures
        r matches Some(n) ==> parse_usize(trim(input@)) == Some(n as nat),
        r is None ==> parse_usize(trim(input@)) is None,
{
    let v = chars_of(input);
    let (a, b) = trim_bounds(&v);
    let ghost t = v@.subrange(a as int, b as int);
    let mut i = a;
    if i < b && v[i] == '+' {
        i += 1;
    }
    let ghost d = v@.subrange(i as int, b as int);
    proof {
        if a < b {
            assert(t[0] == v@[a as int]);
            if v@[a as int] == '+' {
                assert(t.drop_first() == d);
            } else {
                assert(t == d);
            }
        } else {
            assert(t == d);
        }
    }
    if i == b {
        return None;
    }
    let start = i;
    let mut value: usize = 0;
    while i < b
        invariant
            start <= i <= b <= v.len(),
            d == v@.subrange(start as int, b as int),
            forall|j: int| 0 <= j < i - start ==> is_digit(#[trigger] d[j]),
            value == digits_value(d.take(i - start)),
            parse_usize(trim(input@)) == parse_digits(d),
        decreases b - i,
    {
        let c = v[i];
        if !('0' <= c && c <= '9') {
            assert(!is_digit(d[i - start]));
            return None;
        }
        let digit: usize = (c as u32 - 48) as usize;
        assert(d.take(i - start + 1).drop_last() == d.take(i - start));
        assert(d[i - start] == c);
        if value > (usize::MAX - digit) / 10 {
            proof {
                let m = usize::MAX as int;
                let vv = value as int;
                let dd = digit as int;
                assert(vv * 10 + dd > m) by (nonlinear_arith)
                    requires
                        vv > (m - dd) / 10,
                        0 <= dd <= 9,
                        m > 9,
                ;
                assert(digits_value(d.take(i - start + 1)) == value * 10 + digit);
                if forall|j: int| 0 <= j < d.len() ==> is_digit(#[trigger] d[j]) {
                    lemma_digits_value_grows(d, i - start + 1);
                }
            }
            return None;
        }
        proof {
            let m = usize::MAX as int;
            let vv = value as int;
            let dd = digit as int;
            assert(vv * 10 + dd <= m) by (nonlinear_arith)
                requires
                    vv <= (m - dd) / 10,
                    0 <= dd <= 9,
                    m > 9,
            ;
        }
        value = value * 10 + digit;
        i += 1;
    }
    assert(d.take(d.len() as int) == d);
    Some(value)
}

} // verus!
