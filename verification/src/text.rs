//! Character-level text handling: the terminal encoder for remote strings and
//! the small string operations the rest of the library is built from.
use unicode_general_category::{get_general_category, GeneralCategory};
use vstd::prelude::*;

verus! {

broadcast use vstd::string::group_string_axioms;

/// Replacement character written in place of anything that must not reach a terminal.
pub const REPLACEMENT: char = '\u{00B7}';

/// Whether `c` is in Unicode general category Cc (C0 controls, DEL and C1 controls):
/// the set `char::is_control` reports.
pub open spec fn is_control_char(c: char) -> bool {
    (c as u32) <= 0x1f || (0x7f <= (c as u32) && (c as u32) <= 0x9f)
}

/// Whether the Unicode tables of `unicode_general_category` put `c` in category Cf (Format).
pub uninterp spec fn is_format_category(c: char) -> bool;

/// Whether `c` is a character a terminal would interpret rather than display:
/// a control character (category Cc) or a format character (category Cf).
pub open spec fn must_neutralize(c: char) -> bool {
    is_control_char(c) || is_format_category(c)
}

/// The encoding of one character.
pub open spec fn encode_char(c: char) -> char {
    if must_neutralize(c) {
        REPLACEMENT
    } else {
        c
    }
}

/// The encoding of a whole text: every character encoded in place.
pub open spec fn sanitized(s: Seq<char>) -> Seq<char> {
    Seq::new(s.len(), |i: int| encode_char(s[i]))
}

/// Whether no character of `s` must be neutralized.
pub open spec fn is_inert(s: Seq<char>) -> bool {
    forall|i: int| 0 <= i < s.len() ==> !must_neutralize(#[trigger] s[i])
}

/// Asks `unicode_general_category::get_general_category` for the category of `c` and reports
/// whether it is Format (Cf). Claimed: the answer is the fixed table lookup named
/// [`is_format_category`]; U+00B7 (the replacement character, category Po in the crate's
/// tables) is not Format, nor is U+2026 (the ellipsis, category Po there), nor any
/// printable ASCII character (U+0020 to U+007E, categories Zs, P*, S*, Nd, Lu and Ll
/// there), nor any control character (category Cc there).
#[verifier::external_body]
pub(crate) fn category_is_format(c: char) -> (r: bool)
    ensures
        r == is_format_category(c),
        c == REPLACEMENT ==> !r,
        c == '\u{2026}' ==> !r,
        0x20 <= (c as u32) <= 0x7e ==> !r,
        is_control_char(c) ==> !r,
{
    match get_general_category(c) {
        GeneralCategory::Format => true,
        _ => false,
    }
}

/// Appends `c` to `s` (`String::push`).
#[verifier::external_body]
pub(crate) fn push_char(s: &mut String, c: char)
    ensures
        final(s)@ == old(s)@.push(c),
{
    s.push(c);
}

/// Executable form of [`is_control_char`].
pub fn char_is_control(c: char) -> (r: bool)
    ensures
        r == is_control_char(c),
{
    let u: u32 = c as u32;
    u <= 0x1f || (0x7f <= u && u <= 0x9f)
}

/// The characters of `s`, in order.
pub fn chars_of(s: &str) -> (v: Vec<char>)
    ensures
        v@ == s@,
{
    let mut v: Vec<char> = Vec::new();
    for c in it: s.chars()
        invariant
            v@ == it.seq().take(it.index() as int),
            it.seq() == s@,
    {
        v.push(c);
    }
    v
}

/// A string holding exactly the characters `v[from..to]`.
pub fn string_from_range(v: &Vec<char>, from: usize, to: usize) -> (r: String)
    requires
        from <= to <= v@.len(),
    ensures
        r@ == v@.subrange(from as int, to as int),
{
    let mut r = String::new();
    let mut i: usize = from;
    while i < to
        invariant
            from <= i <= to <= v@.len(),
            r@ == v@.subrange(from as int, i as int),
        decreases to - i,
    {
        push_char(&mut r, v[i]);
        i = i + 1;
        assert(r@ =~= v@.subrange(from as int, i as int));
    }
    r
}

/// Appends the characters of `t` to `s`.
pub fn push_all(s: &mut String, t: &str)
    ensures
        final(s)@ == old(s)@ + t@,
{
    let v = chars_of(t);
    let mut i: usize = 0;
    while i < v.len()
        invariant
            i <= v@.len(),
            v@ == t@,
            s@ == old(s)@ + v@.take(i as int),
        decreases v@.len() - i,
    {
        push_char(s, v[i]);
        i = i + 1;
        assert(s@ =~= old(s)@ + v@.take(i as int));
    }
    assert(v@.take(v@.len() as int) =~= v@);
}

/// An owned copy of `s`.
pub fn owned(s: &str) -> (r: String)
    ensures
        r@ == s@,
{
    let mut r = String::new();
    push_all(&mut r, s);
    assert(r@ =~= s@);
    r
}

/// Neutralize characters that a terminal would interpret rather than display.
///
/// Two Unicode categories are denied, not a list of known-bad codepoints: Cc (C0, DEL
/// and C1, which carry ANSI escape sequences) and Cf (format characters,
/// among them the bidi overrides and isolates and the zero-width range). Each denied
/// character is replaced by [`REPLACEMENT`]; every other character is kept in place.
pub fn sanitize(s: &str) -> (r: String)
    ensures
        r@ == sanitized(s@),
        is_inert(r@),
        forall|i: int| 0 <= i < s@.len() && 0x20 <= (s@[i] as u32) <= 0x7e ==> #[trigger] r@[i] == s@[i],
{
    let v = chars_of(s);
    let replacement_is_format = category_is_format(REPLACEMENT);
    let mut r = String::new();
    let mut i: usize = 0;
    while i < v.len()
        invariant
            i <= v@.len(),
            v@ == s@,
            !replacement_is_format,
            r@ == sanitized(v@.take(i as int)),
            forall|k: int| 0 <= k < i && 0x20 <= (v@[k] as u32) <= 0x7e ==> #[trigger] r@[k] == v@[k],
        decreases v@.len() - i,
    {
        let c = v[i];
        let bad = char_is_control(c) || category_is_format(c);
        if bad {
            push_char(&mut r, REPLACEMENT);
        } else {
            push_char(&mut r, c);
        }
        i = i + 1;
        assert(r@ =~= sanitized(v@.take(i as int)));
    }
    assert(v@.take(v@.len() as int) =~= v@);
    r
}

/// The views of a sequence of strings.
pub open spec fn string_views(v: Seq<String>) -> Seq<Seq<char>> {
    Seq::new(v.len(), |i: int| v[i]@)
}

/// Whether two strings hold the same characters.
pub fn str_eq(a: &str, b: &str) -> (r: bool)
    ensures
        r == (a@ == b@),
{
    let x = chars_of(a);
    let y = chars_of(b);
    chars_eq(&x, &y)
}

/// Whether two character vectors are equal.
pub fn chars_eq(x: &Vec<char>, y: &Vec<char>) -> (r: bool)
    ensures
        r == (x@ == y@),
{
    if x.len() != y.len() {
        return false;
    }
    let mut i: usize = 0;
    while i < x.len()
        invariant
            x@.len() == y@.len(),
            i <= x@.len(),
            forall|k: int| 0 <= k < i ==> x@[k] == y@[k],
        decreases x@.len() - i,
    {
        if x[i] != y[i] {
            return false;
        }
        i = i + 1;
    }
    assert(x@ =~= y@);
    true
}

/// Encoding keeps the length of a text and every character that needs no neutralizing,
/// and leaves a text that holds nothing to neutralize unchanged, so encoding an encoded
/// text again changes nothing.
pub proof fn lemma_sanitized_preserves(s: Seq<char>)
    ensures
        sanitized(s).len() == s.len(),
        forall|i: int| 0 <= i < s.len() && !must_neutralize(s[i]) ==> #[trigger] sanitized(s)[i] == s[i],
        forall|i: int| 0 <= i < s.len() && must_neutralize(s[i]) ==> #[trigger] sanitized(s)[i] == REPLACEMENT,
        is_inert(s) ==> sanitized(s) == s,
{
    if is_inert(s) {
        assert(sanitized(s) =~= s);
    }
}

/// Unicode's White_Space property: the set `char::is_whitespace` reports and `str::trim` strips.
pub open spec fn is_white_space(c: char) -> bool {
    let u = c as u32;
    ||| 0x09 <= u <= 0x0d
    ||| u == 0x20
    ||| u == 0x85
    ||| u == 0xa0
    ||| u == 0x1680
    ||| 0x2000 <= u <= 0x200a
    ||| u == 0x2028
    ||| u == 0x2029
    ||| u == 0x202f
    ||| u == 0x205f
    ||| u == 0x3000
}

/// Executable form of [`is_white_space`].
pub fn char_is_white_space(c: char) -> (r: bool)
    ensures
        r == is_white_space(c),
{
    let u: u32 = c as u32;
    (0x09 <= u && u <= 0x0d) || u == 0x20 || u == 0x85 || u == 0xa0 || u == 0x1680 || (0x2000
        <= u && u <= 0x200a) || u == 0x2028 || u == 0x2029 || u == 0x202f || u == 0x205f || u
        == 0x3000
}

/// `s` without its leading white space.
pub open spec fn trim_start(s: Seq<char>) -> Seq<char>
    decreases s.len(),
{
    if s.len() > 0 && is_white_space(s[0]) {
        trim_start(s.drop_first())
    } else {
        s
    }
}

/// `s` without its trailing white space.
pub open spec fn trim_end(s: Seq<char>) -> Seq<char>
    decreases s.len(),
{
    if s.len() > 0 && is_white_space(s.last()) {
        trim_end(s.drop_last())
    } else {
        s
    }
}

/// `s` without leading and trailing white space (what `str::trim` returns).
pub open spec fn trimmed(s: Seq<char>) -> Seq<char> {
    trim_end(trim_start(s))
}

/// The bounds `[lo, hi)` of `v` once leading and trailing white space is dropped.
pub fn trim_bounds(v: &Vec<char>) -> (r: (usize, usize))
    ensures
        r.0 <= r.1 <= v@.len(),
        v@.subrange(r.0 as int, r.1 as int) == trimmed(v@),
{
    let n = v.len();
    let mut lo: usize = 0;
    assert(v@.skip(0) =~= v@);
    while lo < n && char_is_white_space(v[lo])
        invariant
            lo <= n == v@.len(),
            trim_start(v@) == trim_start(v@.skip(lo as int)),
        decreases n - lo,
    {
        assert(v@.skip(lo as int).drop_first() =~= v@.skip(lo + 1));
        lo = lo + 1;
    }
    assert(trim_start(v@) == v@.subrange(lo as int, n as int)) by {
        assert(v@.skip(lo as int) =~= v@.subrange(lo as int, n as int));
    }
    let mut hi: usize = n;
    while hi > lo && char_is_white_space(v[hi - 1])
        invariant
            lo <= hi <= n == v@.len(),
            trim_start(v@) == v@.subrange(lo as int, n as int),
            trimmed(v@) == trim_end(v@.subrange(lo as int, hi as int)),
        decreases hi - lo,
    {
        assert(v@.subrange(lo as int, hi as int).drop_last() =~= v@.subrange(
            lo as int,
            hi - 1,
        ));
        hi = hi - 1;
    }
    (lo, hi)
}

/// `s` without leading and trailing white space.
pub fn trim(s: &str) -> (r: String)
    ensures
        r@ == trimmed(s@),
{
    let v = chars_of(s);
    let (lo, hi) = trim_bounds(&v);
    string_from_range(&v, lo, hi)
}

/// `c` with an ASCII upper-case letter mapped to its lower-case form.
pub open spec fn ascii_lower(c: char) -> char {
    if 'A' <= c <= 'Z' {
        ((c as u32) + 32) as char
    } else {
        c
    }
}

/// Whether `a` and `b` are equal ignoring ASCII case (`str::eq_ignore_ascii_case`).
pub open spec fn eq_ignoring_ascii_case(a: Seq<char>, b: Seq<char>) -> bool {
    &&& a.len() == b.len()
    &&& forall|i: int| 0 <= i < a.len() ==> ascii_lower(#[trigger] a[i]) == ascii_lower(b[i])
}

/// Executable form of [`ascii_lower`].
fn char_ascii_lower(c: char) -> (r: char)
    ensures
        r == ascii_lower(c),
{
    if 'A' <= c && c <= 'Z' {
        let u: u32 = (c as u32) + 32;
        assert(0x61 <= u <= 0x7a);
        char_from_ascii(u)
    } else {
        c
    }
}

/// The character with ASCII code `u`.
fn char_from_ascii(u: u32) -> (r: char)
    requires
        u < 0x80,
    ensures
        r == u as char,
{
    let b: u8 = u as u8;
    b as char
}

/// Whether `a` and `b` are equal ignoring ASCII case.
pub fn eq_ignore_ascii_case(a: &Vec<char>, b: &str) -> (r: bool)
    ensures
        r == eq_ignoring_ascii_case(a@, b@),
{
    let y = chars_of(b);
    if a.len() != y.len() {
        return false;
    }
    let mut i: usize = 0;
    while i < a.len()
        invariant
            a@.len() == y@.len(),
            y@ == b@,
            i <= a@.len(),
            forall|k: int| 0 <= k < i ==> ascii_lower(#[trigger] a@[k]) == ascii_lower(y@[k]),
        decreases a@.len() - i,
    {
        if char_ascii_lower(a[i]) != char_ascii_lower(y[i]) {
            return false;
        }
        i = i + 1;
    }
    true
}

/// Whether `s` ends with `suffix`.
pub open spec fn has_suffix(s: Seq<char>, suffix: Seq<char>) -> bool {
    suffix.len() <= s.len() && s.subrange(s.len() - suffix.len(), s.len() as int) == suffix
}

/// Whether `s` ends with the characters of `suffix`.
pub fn ends_with(s: &Vec<char>, suffix: &str) -> (r: bool)
    ensures
        r == has_suffix(s@, suffix@),
{
    let t = chars_of(suffix);
    if t.len() > s.len() {
        return false;
    }
    let off = s.len() - t.len();
    let mut i: usize = 0;
    while i < t.len()
        invariant
            off + t.len() == s.len(),
            t@ == suffix@,
            i <= t@.len(),
            forall|k: int| 0 <= k < i ==> s@[off + k] == t@[k],
        decreases t@.len() - i,
    {
        if s[off + i] != t[i] {
            assert(s@.subrange(off as int, s@.len() as int)[i as int] != t@[i as int]);
            return false;
        }
        i = i + 1;
    }
    assert(s@.subrange(off as int, s@.len() as int) =~= t@);
    true
}

/// The decimal digit for `d < 10`.
pub open spec fn digit_char(d: nat) -> char {
    (('0' as u32) + d) as char
}

/// The decimal representation of `n`, without leading zeros.
pub open spec fn decimal(n: nat) -> Seq<char>
    decreases n,
{
    if n < 10 {
        seq![digit_char(n)]
    } else {
        decimal(n / 10).push(digit_char(n % 10))
    }
}

/// The decimal representation of `n` (what `format!("{n}")` writes).
pub fn decimal_string(n: u64) -> (r: String)
    ensures
        r@ == decimal(n as nat),
    decreases n,
{
    if n < 10 {
        let mut r = String::new();
        push_char(&mut r, char_from_ascii((n as u32) + 0x30));
        assert(r@ =~= decimal(n as nat));
        r
    } else {
        let mut r = decimal_string(n / 10);
        push_char(&mut r, char_from_ascii(((n % 10) as u32) + 0x30));
        r
    }
}

} // verus!
