//! Character-level helpers shared by the parsers of this crate.
//!
//! Strings are handled as sequences of `char`s. Each helper comes with a
//! spec function that says what it computes on a window `[lo, hi)` of a
//! character slice.
use vstd::prelude::*;
use vstd::utf8::{encode_scalar, encode_utf8, has_width_1_encoding};

verus! {

/// Appends one character to a `String` (std's `String::push`).
#[verifier::external_body]
pub(crate) fn push_char(s: &mut String, c: char)
    ensures
        final(s)@ == old(s)@.push(c),
{
    s.push(c);
}

/// The characters of a string slice, in order.
pub fn chars_of(s: &str) -> (v: Vec<char>)
    ensures
        v@ == s@,
{
    let mut v: Vec<char> = Vec::new();
    for c in it: s.chars()
        invariant
            v@ == it.seq().take(it.index() as int),
    {
        v.push(c);
    }
    v
}

/// Builds a `String` holding the given characters.
pub fn string_from_chars(v: &[char]) -> (s: String)
    ensures
        s@ == v@,
{
    let mut s = String::new();
    let mut i: usize = 0;
    while i < v.len()
        invariant
            i <= v.len(),
            s@ == v@.take(i as int),
        decreases v.len() - i,
    {
        push_char(&mut s, v[i]);
        i = i + 1;
        assert(v@.take(i as int) == v@.take(i - 1).push(v@[i - 1]));
    }
    assert(v@.take(v.len() as int) == v@);
    s
}

/// Builds a `String` from the characters `v[lo..hi]`.
pub fn string_from_range(v: &[char], lo: usize, hi: usize) -> (s: String)
    requires
        lo <= hi <= v@.len(),
    ensures
        s@ == v@.subrange(lo as int, hi as int),
{
    let mut s = String::new();
    let mut i: usize = lo;
    while i < hi
        invariant
            lo <= i <= hi <= v@.len(),
            s@ == v@.subrange(lo as int, i as int),
        decreases hi - i,
    {
        push_char(&mut s, v[i]);
        i = i + 1;
        assert(v@.subrange(lo as int, i as int) == v@.subrange(lo as int, i - 1).push(v@[i - 1]));
    }
    s
}

/// Appends the characters of `v` to `out`.
pub fn append_chars(out: &mut Vec<char>, v: &[char])
    ensures
        final(out)@ == old(out)@ + v@,
{
    let mut i: usize = 0;
    while i < v.len()
        invariant
            i <= v.len(),
            out@ == old(out)@ + v@.take(i as int),
        decreases v.len() - i,
    {
        out.push(v[i]);
        i = i + 1;
        assert(v@.take(i as int) == v@.take(i - 1).push(v@[i - 1]));
    }
    assert(v@.take(v.len() as int) == v@);
}

/// Appends the characters of a string slice to `out`.
pub fn append_str(out: &mut Vec<char>, s: &str)
    ensures
        final(out)@ == old(out)@ + s@,
{
    let v = chars_of(s);
    append_chars(out, v.as_slice());
}

// ---------------------------------------------------------------------------
// Character classes
// ---------------------------------------------------------------------------

/// Unicode `White_Space`, as `char::is_whitespace` documents it.
pub open spec fn is_ws(c: char) -> bool {
    ||| ('\u{9}' <= c <= '\u{d}')
    ||| c == ' '
    ||| c == '\u{85}'
    ||| c == '\u{a0}'
    ||| c == '\u{1680}'
    ||| ('\u{2000}' <= c <= '\u{200a}')
    ||| c == '\u{2028}'
    ||| c == '\u{2029}'
    ||| c == '\u{202f}'
    ||| c == '\u{205f}'
    ||| c == '\u{3000}'
}

pub fn is_ws_exec(c: char) -> (b: bool)
    ensures
        b == is_ws(c),
{
    ('\u{9}' <= c && c <= '\u{d}') || c == ' ' || c == '\u{85}' || c == '\u{a0}' || c == '\u{1680}'
        || ('\u{2000}' <= c && c <= '\u{200a}') || c == '\u{2028}' || c == '\u{2029}' || c
        == '\u{202f}' || c == '\u{205f}' || c == '\u{3000}'
}

pub open spec fn is_ascii_digit(c: char) -> bool {
    '0' <= c <= '9'
}

pub open spec fn is_ascii_upper(c: char) -> bool {
    'A' <= c <= 'Z'
}

pub open spec fn is_ascii_lower(c: char) -> bool {
    'a' <= c <= 'z'
}

pub open spec fn is_ascii_alnum(c: char) -> bool {
    is_ascii_digit(c) || is_ascii_upper(c) || is_ascii_lower(c)
}

/// `char::to_ascii_lowercase`.
pub open spec fn ascii_lower(c: char) -> char {
    if is_ascii_upper(c) {
        ((c as u32) + 32) as char
    } else {
        c
    }
}

pub fn ascii_lower_exec(c: char) -> (r: char)
    ensures
        r == ascii_lower(c),
{
    if 'A' <= c && c <= 'Z' {
        let b: u8 = ((c as u32) + 32) as u8;
        (b as char)
    } else {
        c
    }
}

/// `str::to_ascii_lowercase` on a sequence of characters.
pub open spec fn lower_seq(s: Seq<char>) -> Seq<char> {
    s.map_values(|c: char| ascii_lower(c))
}

/// `str::eq_ignore_ascii_case`.
pub open spec fn eq_ignore_ascii_case(a: Seq<char>, b: Seq<char>) -> bool {
    lower_seq(a) == lower_seq(b)
}

/// The classes of characters that the parsers strip or look for.
#[derive(Clone, Copy, PartialEq, Eq, Debug)]
pub enum CharClass {
    Whitespace,
    Dot,
    Caret,
    Pipe,
    /// `/`, `?` or `#`: where the path, query or fragment of a URL starts.
    PathStart,
    Newline,
    Dollar,
}

pub open spec fn in_class(k: CharClass, c: char) -> bool {
    match k {
        CharClass::Whitespace => is_ws(c),
        CharClass::Dot => c == '.',
        CharClass::Caret => c == '^',
        CharClass::Pipe => c == '|',
        CharClass::PathStart => c == '/' || c == '?' || c == '#',
        CharClass::Newline => c == '\n',
        CharClass::Dollar => c == '$',
    }
}

pub fn in_class_exec(k: CharClass, c: char) -> (b: bool)
    ensures
        b == in_class(k, c),
{
    match k {
        CharClass::Whitespace => is_ws_exec(c),
        CharClass::Dot => c == '.',
        CharClass::Caret => c == '^',
        CharClass::Pipe => c == '|',
        CharClass::PathStart => c == '/' || c == '?' || c == '#',
        CharClass::Newline => c == '\n',
        CharClass::Dollar => c == '$',
    }
}

// ---------------------------------------------------------------------------
// Trimming
// ---------------------------------------------------------------------------

/// `trim_start_matches` for a class: drops every leading character of the class.
pub open spec fn trim_start(s: Seq<char>, k: CharClass) -> Seq<char>
    decreases s.len(),
{
    if s.len() > 0 && in_class(k, s[0]) {
        trim_start(s.drop_first(), k)
    } else {
        s
    }
}

/// `trim_end_matches` for a class: drops every trailing character of the class.
pub open spec fn trim_end(s: Seq<char>, k: CharClass) -> Seq<char>
    decreases s.len(),
{
    if s.len() > 0 && in_class(k, s.last()) {
        trim_end(s.drop_last(), k)
    } else {
        s
    }
}

/// `str::trim`: whitespace removed at both ends.
pub open spec fn trim(s: Seq<char>) -> Seq<char> {
    trim_end(trim_start(s, CharClass::Whitespace), CharClass::Whitespace)
}

/// Index of the first character of `v[lo..hi]` outside the class.
pub fn skip_class_start(v: &[char], lo: usize, hi: usize, k: CharClass) -> (r: usize)
    requires
        lo <= hi <= v@.len(),
    ensures
        lo <= r <= hi,
        v@.subrange(r as int, hi as int) == trim_start(v@.subrange(lo as int, hi as int), k),
{
    let mut i = lo;
    while i < hi && in_class_exec(k, v[i])
        invariant
            lo <= i <= hi <= v@.len(),
            trim_start(v@.subrange(lo as int, hi as int), k) == trim_start(
                v@.subrange(i as int, hi as int),
                k,
            ),
        decreases hi - i,
    {
        assert(v@.subrange(i as int, hi as int).drop_first() =~= v@.subrange(i + 1, hi as int));
        i = i + 1;
    }
    i
}

/// End of `v[lo..hi]` once the trailing characters of the class are dropped.
pub fn skip_class_end(v: &[char], lo: usize, hi: usize, k: CharClass) -> (r: usize)
    requires
        lo <= hi <= v@.len(),
    ensures
        lo <= r <= hi,
        v@.subrange(lo as int, r as int) == trim_end(v@.subrange(lo as int, hi as int), k),
{
    let mut j = hi;
    while j > lo && in_class_exec(k, v[j - 1])
        invariant
            lo <= j <= hi <= v@.len(),
            trim_end(v@.subrange(lo as int, hi as int), k) == trim_end(
                v@.subrange(lo as int, j as int),
                k,
            ),
        decreases j - lo,
    {
        assert(v@.subrange(lo as int, j as int).drop_last() =~= v@.subrange(lo as int, j - 1));
        j = j - 1;
    }
    j
}

/// The window `v[lo..hi]` with whitespace trimmed at both ends.
pub fn trim_range(v: &[char], lo: usize, hi: usize) -> (r: (usize, usize))
    requires
        lo <= hi <= v@.len(),
    ensures
        lo <= r.0 <= r.1 <= hi,
        v@.subrange(r.0 as int, r.1 as int) == trim(v@.subrange(lo as int, hi as int)),
{
    let a = skip_class_start(v, lo, hi, CharClass::Whitespace);
    let b = skip_class_end(v, a, hi, CharClass::Whitespace);
    (a, b)
}

// ---------------------------------------------------------------------------
// Searching
// ---------------------------------------------------------------------------

/// `pat` occurs in `s` at position `i`.
pub open spec fn occurs_at(s: Seq<char>, pat: Seq<char>, i: int) -> bool {
    0 <= i && i + pat.len() <= s.len() && s.subrange(i, i + pat.len()) == pat
}

/// First occurrence of `pat` in `s` at or after `i`.
pub open spec fn find_from(s: Seq<char>, pat: Seq<char>, i: int) -> Option<int>
    decreases s.len() - i,
{
    if i < 0 || i + pat.len() > s.len() {
        None
    } else if occurs_at(s, pat, i) {
        Some(i)
    } else if i >= s.len() {
        None
    } else {
        find_from(s, pat, i + 1)
    }
}

/// `str::find` with a string pattern: the first position where `pat` occurs.
pub open spec fn find(s: Seq<char>, pat: Seq<char>) -> Option<int> {
    find_from(s, pat, 0)
}

/// `str::contains` with a string pattern.
pub open spec fn contains(s: Seq<char>, pat: Seq<char>) -> bool {
    find(s, pat) is Some
}

/// `str::starts_with` with a string pattern.
pub open spec fn starts_with(s: Seq<char>, pat: Seq<char>) -> bool {
    pat.len() <= s.len() && s.take(pat.len() as int) == pat
}

/// `str::ends_with` with a string pattern.
pub open spec fn ends_with(s: Seq<char>, pat: Seq<char>) -> bool {
    pat.len() <= s.len() && s.skip(s.len() - pat.len()) == pat
}

pub proof fn lemma_find_from_bounds(s: Seq<char>, pat: Seq<char>, i: int)
    requires
        0 <= i,
    ensures
        find_from(s, pat, i) matches Some(j) ==> i <= j && occurs_at(s, pat, j) && forall|
            m: int,
        |
            i <= m < j ==> !occurs_at(s, pat, m),
        find_from(s, pat, i) is None ==> forall|m: int| i <= m ==> !occurs_at(s, pat, m),
    decreases s.len() - i,
{
    if i < 0 || i + pat.len() > s.len() {
    } else if occurs_at(s, pat, i) {
    } else if i >= s.len() {
        assert(s.subrange(i, i + pat.len()) =~= pat);
    } else {
        lemma_find_from_bounds(s, pat, i + 1);
    }
}

/// `pat` occurs in `v[lo..hi]` at the window position `i`.
fn occurs_at_exec(v: &[char], lo: usize, hi: usize, pat: &[char], i: usize) -> (b: bool)
    requires
        lo <= hi <= v@.len(),
    ensures
        b == occurs_at(v@.subrange(lo as int, hi as int), pat@, i as int),
{
    let ghost s = v@.subrange(lo as int, hi as int);
    if i > hi - lo || pat.len() > hi - lo - i {
        return false;
    }
    let mut j: usize = 0;
    while j < pat.len()
        invariant
            lo <= hi <= v@.len(),
            i + pat@.len() <= hi - lo,
            s == v@.subrange(lo as int, hi as int),
            j <= pat@.len(),
            forall|m: int| 0 <= m < j ==> s[i + m] == pat@[m],
        decreases pat.len() - j,
    {
        if v[lo + i + j] != pat[j] {
            assert(s.subrange(i as int, i + pat@.len())[j as int] != pat@[j as int]);
            return false;
        }
        j = j + 1;
    }
    assert(s.subrange(i as int, i + pat@.len()) =~= pat@);
    true
}

/// First occurrence of `pat` in `v[lo..hi]`, as a position in the window.
pub fn find_in(v: &[char], lo: usize, hi: usize, pat: &[char]) -> (r: Option<usize>)
    requires
        lo <= hi <= v@.len(),
    ensures
        r matches Some(i) ==> find(v@.subrange(lo as int, hi as int), pat@) == Some(i as int),
        r is None ==> find(v@.subrange(lo as int, hi as int), pat@) is None,
{
    let ghost s = v@.subrange(lo as int, hi as int);
    if pat.len() > hi - lo {
        return None;
    }
    let last = hi - lo - pat.len();
    let mut i: usize = 0;
    loop
        invariant
            lo <= hi <= v@.len(),
            last == hi - lo - pat@.len(),
            i <= last,
            s == v@.subrange(lo as int, hi as int),
            find(s, pat@) == find_from(s, pat@, i as int),
        decreases last - i,
    {
        if occurs_at_exec(v, lo, hi, pat, i) {
            return Some(i);
        }
        if i == last {
            assert(find_from(s, pat@, i + 1) is None);
            return None;
        }
        i = i + 1;
    }
}

/// First index at or after `i` whose character is in the class.
pub open spec fn first_in_from(s: Seq<char>, k: CharClass, i: int) -> Option<int>
    decreases s.len() - i,
{
    if i < 0 || i >= s.len() {
        None
    } else if in_class(k, s[i]) {
        Some(i)
    } else {
        first_in_from(s, k, i + 1)
    }
}

/// `str::find` with a character predicate.
pub open spec fn first_in(s: Seq<char>, k: CharClass) -> Option<int> {
    first_in_from(s, k, 0)
}

pub fn first_in_range(v: &[char], lo: usize, hi: usize, k: CharClass) -> (r: Option<usize>)
    requires
        lo <= hi <= v@.len(),
    ensures
        r matches Some(i) ==> first_in(v@.subrange(lo as int, hi as int), k) == Some(i as int),
        r is None ==> first_in(v@.subrange(lo as int, hi as int), k) is None,
{
    let ghost s = v@.subrange(lo as int, hi as int);
    let mut i: usize = 0;
    while i < hi - lo
        invariant
            lo <= hi <= v@.len(),
            s == v@.subrange(lo as int, hi as int),
            first_in(s, k) == first_in_from(s, k, i as int),
        decreases hi - lo - i,
    {
        if in_class_exec(k, v[lo + i]) {
            return Some(i);
        }
        i = i + 1;
    }
    None
}

/// Last index before `i` holding the character `c`.
pub open spec fn last_before(s: Seq<char>, c: char, i: int) -> Option<int>
    decreases i,
{
    if i <= 0 || i > s.len() {
        None
    } else if s[i - 1] == c {
        Some(i - 1)
    } else {
        last_before(s, c, i - 1)
    }
}

/// `str::rfind` with a character.
pub open spec fn rfind(s: Seq<char>, c: char) -> Option<int> {
    last_before(s, c, s.len() as int)
}

pub fn rfind_range(v: &[char], lo: usize, hi: usize, c: char) -> (r: Option<usize>)
    requires
        lo <= hi <= v@.len(),
    ensures
        r matches Some(i) ==> rfind(v@.subrange(lo as int, hi as int), c) == Some(i as int),
        r is None ==> rfind(v@.subrange(lo as int, hi as int), c) is None,
{
    let ghost s = v@.subrange(lo as int, hi as int);
    let mut i: usize = hi - lo;
    while i > 0
        invariant
            lo <= hi <= v@.len(),
            i <= hi - lo,
            s == v@.subrange(lo as int, hi as int),
            rfind(s, c) == last_before(s, c, i as int),
        decreases i,
    {
        if v[lo + i - 1] == c {
            return Some(i - 1);
        }
        i = i - 1;
    }
    None
}

/// Every character is an ASCII digit.
pub open spec fn all_ascii_digits(s: Seq<char>) -> bool {
    forall|i: int| 0 <= i < s.len() ==> is_ascii_digit(#[trigger] s[i])
}

/// The value of a text of decimal digits.
pub open spec fn digits_value(s: Seq<char>) -> nat
    decreases s.len(),
{
    if s.len() == 0 {
        0
    } else {
        digits_value(s.drop_last()) * 10 + ((s.last() as int) - ('0' as int)) as nat
    }
}

/// A whole number written as `str::parse` reads one for an unsigned type: an
/// optional `+`, then one or more ASCII digits and nothing else.
pub open spec fn unsigned_number(s: Seq<char>) -> Option<nat> {
    let d = if s.len() > 0 && s[0] == '+' {
        s.drop_first()
    } else {
        s
    };
    if d.len() > 0 && all_ascii_digits(d) {
        Some(digits_value(d))
    } else {
        None
    }
}

/// A whole number written as `str::parse` reads one for a signed type: an
/// optional `+` or `-`, then one or more ASCII digits and nothing else.
pub open spec fn signed_number(s: Seq<char>) -> Option<int> {
    if s.len() > 0 && s[0] == '-' {
        let d = s.drop_first();
        if d.len() > 0 && all_ascii_digits(d) {
            Some(-(digits_value(d) as int))
        } else {
            None
        }
    } else {
        match unsigned_number(s) {
            Some(n) => Some(n as int),
            None => None,
        }
    }
}

pub fn all_digits_range(v: &[char], lo: usize, hi: usize) -> (b: bool)
    requires
        lo <= hi <= v@.len(),
    ensures
        b == all_ascii_digits(v@.subrange(lo as int, hi as int)),
{
    let ghost s = v@.subrange(lo as int, hi as int);
    let mut i = lo;
    while i < hi
        invariant
            lo <= i <= hi <= v@.len(),
            s == v@.subrange(lo as int, hi as int),
            forall|m: int| 0 <= m < i - lo ==> is_ascii_digit(#[trigger] s[m]),
        decreases hi - i,
    {
        if !('0' <= v[i] && v[i] <= '9') {
            assert(!is_ascii_digit(s[i - lo]));
            return false;
        }
        i = i + 1;
    }
    true
}

/// `v[lo..hi]` with every ASCII letter lowered.
pub fn lower_range(v: &[char], lo: usize, hi: usize) -> (r: Vec<char>)
    requires
        lo <= hi <= v@.len(),
    ensures
        r@ == lower_seq(v@.subrange(lo as int, hi as int)),
{
    let mut r: Vec<char> = Vec::new();
    let mut i = lo;
    while i < hi
        invariant
            lo <= i <= hi <= v@.len(),
            r@ == lower_seq(v@.subrange(lo as int, i as int)),
        decreases hi - i,
    {
        r.push(ascii_lower_exec(v[i]));
        i = i + 1;
        assert(lower_seq(v@.subrange(lo as int, i as int)) =~= lower_seq(
            v@.subrange(lo as int, i - 1),
        ).push(ascii_lower(v@[i - 1])));
    }
    r
}

/// Does `v[lo..hi]` start with `pat`?
pub fn starts_with_range(v: &[char], lo: usize, hi: usize, pat: &[char]) -> (b: bool)
    requires
        lo <= hi <= v@.len(),
    ensures
        b == starts_with(v@.subrange(lo as int, hi as int), pat@),
{
    let ghost s = v@.subrange(lo as int, hi as int);
    if pat.len() > hi - lo {
        return false;
    }
    let mut j: usize = 0;
    while j < pat.len()
        invariant
            lo <= hi <= v@.len(),
            pat@.len() <= hi - lo,
            s == v@.subrange(lo as int, hi as int),
            j <= pat@.len(),
            forall|m: int| 0 <= m < j ==> s[m] == pat@[m],
        decreases pat.len() - j,
    {
        if v[lo + j] != pat[j] {
            assert(s.take(pat@.len() as int)[j as int] != pat@[j as int]);
            return false;
        }
        j = j + 1;
    }
    assert(s.take(pat@.len() as int) =~= pat@);
    true
}

/// Does `v[lo..hi]` end with `pat`?
pub fn ends_with_range(v: &[char], lo: usize, hi: usize, pat: &[char]) -> (b: bool)
    requires
        lo <= hi <= v@.len(),
    ensures
        b == ends_with(v@.subrange(lo as int, hi as int), pat@),
{
    let ghost s = v@.subrange(lo as int, hi as int);
    if pat.len() > hi - lo {
        return false;
    }
    let off = hi - lo - pat.len();
    let mut j: usize = 0;
    while j < pat.len()
        invariant
            lo <= hi <= v@.len(),
            pat@.len() <= hi - lo,
            off == hi - lo - pat@.len(),
            s == v@.subrange(lo as int, hi as int),
            j <= pat@.len(),
            forall|m: int| 0 <= m < j ==> s[off + m] == pat@[m],
        decreases pat.len() - j,
    {
        if v[lo + off + j] != pat[j] {
            assert(s.skip(off as int)[j as int] != pat@[j as int]);
            return false;
        }
        j = j + 1;
    }
    assert(s.skip(off as int) =~= pat@);
    true
}

/// Is `v[lo..hi]` exactly `pat`?
pub fn equals_range(v: &[char], lo: usize, hi: usize, pat: &[char]) -> (b: bool)
    requires
        lo <= hi <= v@.len(),
    ensures
        b == (v@.subrange(lo as int, hi as int) == pat@),
{
    if hi - lo != pat.len() {
        return false;
    }
    let r = starts_with_range(v, lo, hi, pat);
    proof {
        let s = v@.subrange(lo as int, hi as int);
        assert(s.take(pat@.len() as int) =~= s);
    }
    r
}

/// Does `v[lo..hi]` contain `pat`?
pub fn contains_range(v: &[char], lo: usize, hi: usize, pat: &[char]) -> (b: bool)
    requires
        lo <= hi <= v@.len(),
    ensures
        b == contains(v@.subrange(lo as int, hi as int), pat@),
{
    find_in(v, lo, hi, pat).is_some()
}

/// Do `v[lo..hi]` and `pat` agree up to ASCII case?
pub fn eq_ignore_ascii_case_range(v: &[char], lo: usize, hi: usize, pat: &[char]) -> (b: bool)
    requires
        lo <= hi <= v@.len(),
    ensures
        b == eq_ignore_ascii_case(v@.subrange(lo as int, hi as int), pat@),
{
    let ghost s = v@.subrange(lo as int, hi as int);
    if hi - lo != pat.len() {
        assert(lower_seq(s).len() != lower_seq(pat@).len());
        return false;
    }
    let mut j: usize = 0;
    while j < pat.len()
        invariant
            lo <= hi <= v@.len(),
            pat@.len() == hi - lo,
            s == v@.subrange(lo as int, hi as int),
            j <= pat@.len(),
            forall|m: int| 0 <= m < j ==> ascii_lower(s[m]) == ascii_lower(pat@[m]),
        decreases pat.len() - j,
    {
        if ascii_lower_exec(v[lo + j]) != ascii_lower_exec(pat[j]) {
            assert(lower_seq(s)[j as int] != lower_seq(pat@)[j as int]);
            return false;
        }
        j = j + 1;
    }
    assert(lower_seq(s) =~= lower_seq(pat@));
    true
}

// ---------------------------------------------------------------------------
// Numbers
// ---------------------------------------------------------------------------

/// The ASCII digit for `d < 10`.
pub open spec fn digit_char(d: nat) -> char {
    ((48 + d) as u8) as char
}

/// The decimal text of a natural number.
pub open spec fn decimal(n: nat) -> Seq<char>
    decreases n,
{
    if n < 10 {
        seq![digit_char(n)]
    } else {
        decimal(n / 10).push(digit_char(n % 10))
    }
}

/// The decimal text of an integer, with a leading `-` when negative.
pub open spec fn signed_decimal(n: int) -> Seq<char> {
    if n < 0 {
        seq!['-'] + decimal((-n) as nat)
    } else {
        decimal(n as nat)
    }
}

/// `true` or `false`.
pub open spec fn bool_text(b: bool) -> Seq<char> {
    if b {
        "true"@
    } else {
        "false"@
    }
}

/// Appends the decimal text of `n`.
pub fn push_decimal(out: &mut Vec<char>, n: u64)
    ensures
        final(out)@ == old(out)@ + decimal(n as nat),
    decreases n,
{
    if n >= 10 {
        push_decimal(out, n / 10);
    }
    let d: u8 = (n % 10) as u8;
    out.push((48u8 + d) as char);
    proof {
        if n < 10 {
            assert(final(out)@ =~= old(out)@ + decimal(n as nat));
        } else {
            assert(decimal(n as nat) == decimal((n / 10) as nat).push(digit_char((n % 10) as nat)));
            assert(final(out)@ =~= old(out)@ + decimal(n as nat));
        }
    }
}

/// Appends the decimal text of a signed number.
pub fn push_signed_decimal(out: &mut Vec<char>, n: i64)
    ensures
        final(out)@ == old(out)@ + signed_decimal(n as int),
{
    if n < 0 {
        out.push('-');
        let m: u64 = if n == i64::MIN {
            9223372036854775808u64
        } else {
            (-n) as u64
        };
        let ghost mid = out@;
        push_decimal(out, m);
        assert(final(out)@ =~= old(out)@ + signed_decimal(n as int));
    } else {
        push_decimal(out, n as u64);
    }
}

/// Appends `true` or `false`.
pub fn push_bool(out: &mut Vec<char>, b: bool)
    ensures
        final(out)@ == old(out)@ + bool_text(b),
{
    if b {
        append_str(out, "true");
    } else {
        append_str(out, "false");
    }
}

/// First index at or after `i` holding the character `c`.
pub open spec fn index_of_from(s: Seq<char>, c: char, i: int) -> Option<int>
    decreases s.len() - i,
{
    if i < 0 || i >= s.len() {
        None
    } else if s[i] == c {
        Some(i)
    } else {
        index_of_from(s, c, i + 1)
    }
}

/// `str::find` with a character.
pub open spec fn index_of(s: Seq<char>, c: char) -> Option<int> {
    index_of_from(s, c, 0)
}

pub proof fn lemma_index_of_from_bounds(s: Seq<char>, c: char, i: int)
    requires
        0 <= i,
    ensures
        index_of_from(s, c, i) matches Some(j) ==> i <= j < s.len() && s[j] == c && forall|m: int|
            i <= m < j ==> s[m] != c,
        index_of_from(s, c, i) is None ==> forall|m: int| i <= m < s.len() ==> s[m] != c,
    decreases s.len() - i,
{
    if i < 0 || i >= s.len() {
    } else if s[i] == c {
    } else {
        lemma_index_of_from_bounds(s, c, i + 1);
    }
}

pub fn index_of_range(v: &[char], lo: usize, hi: usize, c: char) -> (r: Option<usize>)
    requires
        lo <= hi <= v@.len(),
    ensures
        r matches Some(i) ==> index_of(v@.subrange(lo as int, hi as int), c) == Some(i as int),
        r is None ==> index_of(v@.subrange(lo as int, hi as int), c) is None,
{
    let ghost s = v@.subrange(lo as int, hi as int);
    let mut i: usize = 0;
    while i < hi - lo
        invariant
            lo <= hi <= v@.len(),
            s == v@.subrange(lo as int, hi as int),
            index_of(s, c) == index_of_from(s, c, i as int),
        decreases hi - lo - i,
    {
        if v[lo + i] == c {
            return Some(i);
        }
        i = i + 1;
    }
    None
}

/// Is the text exactly `lit`?
pub fn str_is(a: &str, lit: &str) -> (b: bool)
    ensures
        b == (a@ == lit@),
{
    let x = chars_of(a);
    let y = chars_of(lit);
    assert(x@.subrange(0, x@.len() as int) =~= x@);
    equals_range(x.as_slice(), 0, x.len(), y.as_slice())
}

/// An ASCII byte is written for a character only when the character has that
/// code: the one byte of an ASCII character is its code, and every byte of a
/// longer encoding has its top bit set.
pub proof fn lemma_scalar_avoids_ascii_byte(c: char, x: u8)
    requires
        x < 0x80,
        c as u32 != x as u32,
    ensures
        forall|k: int|
            0 <= k < encode_scalar(c as u32).len() ==> #[trigger] encode_scalar(c as u32)[k] != x,
{
    let v = c as u32;
    if has_width_1_encoding(v) {
        assert(v <= 0x7F ==> ((v & 0x7F) as u8) as u32 == v) by (bit_vector);
    } else {
        let l2 = ((v >> 6) & 0x1F) as u8;
        let l3 = ((v >> 12) & 0x0F) as u8;
        let l4 = ((v >> 18) & 0x7) as u8;
        let c1 = (v & 0x3F) as u8;
        let c2 = ((v >> 6) & 0x3F) as u8;
        let c3 = ((v >> 12) & 0x3F) as u8;
        assert((0xC0u8 | l2) >= 0x80u8) by (bit_vector);
        assert((0xE0u8 | l3) >= 0x80u8) by (bit_vector);
        assert((0xF0u8 | l4) >= 0x80u8) by (bit_vector);
        assert((0x80u8 | c1) >= 0x80u8) by (bit_vector);
        assert((0x80u8 | c2) >= 0x80u8) by (bit_vector);
        assert((0x80u8 | c3) >= 0x80u8) by (bit_vector);
    }
}

/// A text that holds no character with the ASCII code `x` is encoded without
/// the byte `x`.
pub proof fn lemma_encode_avoids_ascii_byte(s: Seq<char>, x: u8)
    requires
        x < 0x80,
        forall|k: int| 0 <= k < s.len() ==> #[trigger] s[k] as u32 != x as u32,
    ensures
        forall|k: int| 0 <= k < encode_utf8(s).len() ==> #[trigger] encode_utf8(s)[k] != x,
    decreases s.len(),
{
    if s.len() > 0 {
        let rest = s.drop_first();
        assert forall|k: int| 0 <= k < rest.len() implies #[trigger] rest[k] as u32 != x as u32 by {
            assert(rest[k] == s[k + 1]);
        }
        lemma_encode_avoids_ascii_byte(rest, x);
        lemma_scalar_avoids_ascii_byte(s[0], x);
        let head = encode_scalar(s[0] as u32);
        assert forall|k: int| 0 <= k < encode_utf8(s).len() implies #[trigger] encode_utf8(s)[k]
            != x by {
            if k < head.len() {
                assert(encode_utf8(s)[k] == head[k]);
            } else {
                assert(encode_utf8(s)[k] == encode_utf8(rest)[k - head.len()]);
            }
        }
    }
}

/// Different characters have different codes.
pub proof fn lemma_char_codes_differ(a: char, b: char)
    requires
        a != b,
    ensures
        a as u32 != b as u32,
{
    vstd::utf8::char_u32_cast(a, a as u32);
    vstd::utf8::char_u32_cast(b, b as u32);
}

/// A text that holds no character `c`, an ASCII character, is encoded without
/// the byte of `c`.
pub proof fn lemma_encode_avoids_ascii_char(s: Seq<char>, c: char)
    requires
        (c as u32) < 0x80,
        forall|k: int| 0 <= k < s.len() ==> #[trigger] s[k] != c,
    ensures
        forall|k: int| 0 <= k < encode_utf8(s).len() ==> #[trigger] encode_utf8(s)[k] != (c as u32) as u8,
{
    let x = (c as u32) as u8;
    assert(x as u32 == c as u32);
    assert forall|k: int| 0 <= k < s.len() implies #[trigger] s[k] as u32 != x as u32 by {
        lemma_char_codes_differ(s[k], c);
    }
    lemma_encode_avoids_ascii_byte(s, x);
}

/// After `trim_start`, the text does not start with a character of the class.
proof fn lemma_trim_start_first(s: Seq<char>, k: CharClass)
    ensures
        trim_start(s, k).len() > 0 ==> !in_class(k, trim_start(s, k)[0]),
        trim_start(s, k).len() <= s.len(),
    decreases s.len(),
{
    if s.len() > 0 && in_class(k, s[0]) {
        lemma_trim_start_first(s.drop_first(), k);
    }
}

/// `trim_end` keeps a prefix of the text, which does not end with a
/// character of the class.
proof fn lemma_trim_end_prefix(s: Seq<char>, k: CharClass)
    ensures
        trim_end(s, k).len() <= s.len(),
        trim_end(s, k) == s.take(trim_end(s, k).len() as int),
        trim_end(s, k).len() > 0 ==> !in_class(k, trim_end(s, k).last()),
    decreases s.len(),
{
    if s.len() > 0 && in_class(k, s.last()) {
        lemma_trim_end_prefix(s.drop_last(), k);
        let t = trim_end(s.drop_last(), k);
        assert(s.drop_last().take(t.len() as int) =~= s.take(t.len() as int));
    } else {
        assert(s.take(s.len() as int) =~= s);
    }
}

/// Trimming twice is trimming once.
pub proof fn lemma_trim_idempotent(s: Seq<char>)
    ensures
        trim(trim(s)) == trim(s),
{
    let a = trim_start(s, CharClass::Whitespace);
    let t = trim(s);
    lemma_trim_start_first(s, CharClass::Whitespace);
    lemma_trim_end_prefix(a, CharClass::Whitespace);
    if t.len() > 0 {
        assert(t[0] == a.take(t.len() as int)[0]);
        assert(t[0] == a[0]);
    }
    assert(trim_start(t, CharClass::Whitespace) == t);
    assert(trim_end(t, CharClass::Whitespace) == t);
}

} // verus!
