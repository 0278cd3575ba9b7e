//! Normalisation of user input and DNS query names into canonical domains.
use vstd::prelude::*;

use crate::error::{BlockerError, BlockerErrorView};
use crate::text::{
    all_ascii_digits, all_digits_range, chars_of, find, find_from, find_in, first_in, first_in_from,
    first_in_range, in_class, last_before, lemma_find_from_bounds, lower_range, lower_seq, rfind,
    rfind_range, skip_class_end, skip_class_start, string_from_chars, trim, trim_end, trim_range,
    trim_start, is_ascii_alnum, is_ascii_upper, ascii_lower, CharClass,
};

verus! {

/// `://`, the end of a URL scheme.
pub open spec fn scheme_sep() -> Seq<char> {
    seq![':', '/', '/']
}

/// The input with a URL scheme (everything up to the first `://`) removed.
pub open spec fn after_scheme(s: Seq<char>) -> Seq<char> {
    match find(s, scheme_sep()) {
        Some(i) => s.skip(i + 3),
        None => s,
    }
}

/// The input cut before the first `/`, `?` or `#`.
pub open spec fn before_path(s: Seq<char>) -> Seq<char> {
    match first_in(s, CharClass::PathStart) {
        Some(i) => s.take(i),
        None => s,
    }
}

/// The input with user information (everything up to the last `@`) removed.
pub open spec fn after_userinfo(s: Seq<char>) -> Seq<char> {
    match rfind(s, '@') {
        Some(i) => s.skip(i + 1),
        None => s,
    }
}

/// The input with a `:port` suffix removed, when everything after the last
/// `:` is made of ASCII digits.
pub open spec fn without_port(s: Seq<char>) -> Seq<char> {
    match rfind(s, ':') {
        Some(i) => if all_ascii_digits(s.skip(i + 1)) {
            s.take(i)
        } else {
            s
        },
        None => s,
    }
}

/// The host part of a trimmed input: scheme, path, user information and port
/// removed, in that order.
pub open spec fn host_part(t: Seq<char>) -> Seq<char> {
    without_port(after_userinfo(before_path(after_scheme(t))))
}

/// The candidate domain of an input, before validation: the host part,
/// trimmed, without leading and trailing dots, in ASCII lower case.
pub open spec fn domain_candidate(input: Seq<char>) -> Seq<char> {
    lower_seq(
        trim_end(trim_start(trim(host_part(trim(input))), CharClass::Dot), CharClass::Dot),
    )
}

/// A character allowed inside a label.
pub open spec fn is_label_char(c: char) -> bool {
    is_ascii_alnum(c) || c == '-' || c == '_'
}

/// Number of consecutive non-dot characters of `d` that end at index `i`.
pub open spec fn run_len(d: Seq<char>, i: int) -> nat
    decreases i + 1,
{
    if i < 0 || i >= d.len() || d[i] == '.' {
        0
    } else {
        1 + run_len(d, i - 1)
    }
}

/// What must hold at each index of a valid domain.
pub open spec fn valid_at(d: Seq<char>, i: int) -> bool {
    &&& is_label_char(d[i]) || d[i] == '.'
    &&& d[i] == '.' ==> {
        &&& 0 < i < d.len() - 1
        &&& d[i - 1] != '.'
        &&& d[i - 1] != '-'
        &&& d[i + 1] != '-'
    }
    &&& run_len(d, i) <= 63
}

/// A valid domain: at most 253 characters, made of dot-separated labels, each
/// label 1 to 63 characters among ASCII letters, digits, `-` and `_`, and not
/// starting or ending with `-`.
pub open spec fn valid_domain(d: Seq<char>) -> bool {
    &&& 0 < d.len() <= 253
    &&& d[0] != '-'
    &&& d[d.len() - 1] != '-'
    &&& forall|i: int| 0 <= i < d.len() ==> #[trigger] valid_at(d, i)
}

/// The outcome of validating a candidate domain.
pub open spec fn validate(d: Seq<char>) -> Result<(), BlockerErrorView> {
    if d.len() == 0 {
        Err(BlockerErrorView::EmptyDomain)
    } else if valid_domain(d) {
        Ok(())
    } else {
        Err(BlockerErrorView::InvalidDomain(d))
    }
}

/// The outcome of normalising an input.
pub open spec fn normalize(input: Seq<char>) -> Result<Seq<char>, BlockerErrorView> {
    if trim(input).len() == 0 {
        Err(BlockerErrorView::EmptyDomain)
    } else {
        match validate(domain_candidate(input)) {
            Ok(_) => Ok(domain_candidate(input)),
            Err(e) => Err(e),
        }
    }
}

/// A `Result` of a string or a blocker error, by its views.
pub open spec fn result_view(r: Result<String, BlockerError>) -> Result<Seq<char>, BlockerErrorView> {
    match r {
        Ok(s) => Ok(s@),
        Err(e) => Err(e@),
    }
}

proof fn lemma_first_in_from_bounds(s: Seq<char>, k: CharClass, i: int)
    requires
        0 <= i,
    ensures
        first_in_from(s, k, i) matches Some(j) ==> i <= j < s.len() && in_class(k, s[j]),
    decreases s.len() - i,
{
    if i < 0 || i >= s.len() {
    } else if in_class(k, s[i]) {
    } else {
        lemma_first_in_from_bounds(s, k, i + 1);
    }
}

proof fn lemma_last_before_bounds(s: Seq<char>, c: char, i: int)
    ensures
        last_before(s, c, i) matches Some(j) ==> 0 <= j < i && j < s.len() && s[j] == c,
    decreases i,
{
    if i <= 0 || i > s.len() {
    } else if s[i - 1] == c {
    } else {
        lemma_last_before_bounds(s, c, i - 1);
    }
}

/// Checks a candidate domain.
fn validate_domain(d: &[char]) -> (r: Result<(), BlockerError>)
    ensures
        match r {
            Ok(_) => validate(d@) is Ok,
            Err(e) => validate(d@) == Err::<(), BlockerErrorView>(e@),
        },
{
    let n = d.len();
    if n == 0 {
        return Err(BlockerError::EmptyDomain);
    }
    let ghost s = d@;
    if n > 253 || d[0] == '-' || d[n - 1] == '-' {
        return Err(BlockerError::InvalidDomain(string_from_chars(d)));
    }
    let mut run: usize = 0;
    let mut i: usize = 0;
    while i < n
        invariant
            n == d@.len(),
            s == d@,
            0 < n <= 253,
            i <= n,
            i > 0 ==> run == run_len(s, i - 1),
            i == 0 ==> run == 0,
            forall|m: int| 0 <= m < i ==> #[trigger] valid_at(s, m),
        decreases n - i,
    {
        let c = d[i];
        let label_char = ('0' <= c && c <= '9') || ('A' <= c && c <= 'Z') || ('a' <= c && c <= 'z')
            || c == '-' || c == '_';
        if c == '.' {
            if i == 0 || i == n - 1 || d[i - 1] == '.' || d[i - 1] == '-' || d[i + 1] == '-' {
                assert(!valid_at(s, i as int));
                return Err(BlockerError::InvalidDomain(string_from_chars(d)));
            }
            run = 0;
            assert(run_len(s, i as int) == 0);
        } else if !label_char {
            assert(!valid_at(s, i as int));
            return Err(BlockerError::InvalidDomain(string_from_chars(d)));
        } else {
            if run >= 63 {
                assert(run_len(s, i as int) == 1 + run_len(s, i - 1));
                assert(!valid_at(s, i as int));
                return Err(BlockerError::InvalidDomain(string_from_chars(d)));
            }
            assert(run_len(s, i as int) == 1 + run_len(s, i - 1));
            run = run + 1;
        }
        assert(run == run_len(s, i as int));
        assert(valid_at(s, i as int));
        i = i + 1;
    }
    Ok(())
}

fn strip_scheme(v: &[char], a: usize, b: usize) -> (r: usize)
    requires
        a <= b <= v@.len(),
    ensures
        a <= r <= b,
        v@.subrange(r as int, b as int) == after_scheme(v@.subrange(a as int, b as int)),
{
    let ghost t = v@.subrange(a as int, b as int);
    let sep: [char; 3] = [':', '/', '/'];
    assert(sep@ =~= scheme_sep());
    match find_in(v, a, b, &sep) {
        Some(i) => {
            proof {
                lemma_find_from_bounds(t, scheme_sep(), 0);
                assert(t.skip(i + 3) =~= v@.subrange(a + i + 3, b as int));
            }
            a + i + 3
        },
        None => a,
    }
}

fn cut_path(v: &[char], a: usize, b: usize) -> (r: usize)
    requires
        a <= b <= v@.len(),
    ensures
        a <= r <= b,
        v@.subrange(a as int, r as int) == before_path(v@.subrange(a as int, b as int)),
{
    let ghost t = v@.subrange(a as int, b as int);
    match first_in_range(v, a, b, CharClass::PathStart) {
        Some(i) => {
            proof {
                lemma_first_in_from_bounds(t, CharClass::PathStart, 0);
                assert(t.take(i as int) =~= v@.subrange(a as int, a + i));
            }
            a + i
        },
        None => {
            assert(t =~= v@.subrange(a as int, b as int));
            b
        },
    }
}

fn strip_userinfo(v: &[char], a: usize, b: usize) -> (r: usize)
    requires
        a <= b <= v@.len(),
    ensures
        a <= r <= b,
        v@.subrange(r as int, b as int) == after_userinfo(v@.subrange(a as int, b as int)),
{
    let ghost t = v@.subrange(a as int, b as int);
    match rfind_range(v, a, b, '@') {
        Some(i) => {
            proof {
                lemma_last_before_bounds(t, '@', t.len() as int);
                assert(t.skip(i + 1) =~= v@.subrange(a + i + 1, b as int));
            }
            a + i + 1
        },
        None => a,
    }
}

fn strip_port(v: &[char], a: usize, b: usize) -> (r: usize)
    requires
        a <= b <= v@.len(),
    ensures
        a <= r <= b,
        v@.subrange(a as int, r as int) == without_port(v@.subrange(a as int, b as int)),
{
    let ghost t = v@.subrange(a as int, b as int);
    match rfind_range(v, a, b, ':') {
        Some(i) => {
            proof {
                lemma_last_before_bounds(t, ':', t.len() as int);
                assert(t.skip(i + 1) =~= v@.subrange(a + i + 1, b as int));
                assert(t.take(i as int) =~= v@.subrange(a as int, a + i));
            }
            if all_digits_range(v, a + i + 1, b) {
                a + i
            } else {
                b
            }
        },
        None => b,
    }
}

/// The host part of `v[a..b]`, as a window of `v`.
fn host_range(v: &[char], a: usize, b: usize) -> (r: (usize, usize))
    requires
        a <= b <= v@.len(),
    ensures
        a <= r.0 <= r.1 <= b,
        v@.subrange(r.0 as int, r.1 as int) == host_part(v@.subrange(a as int, b as int)),
{
    let a1 = strip_scheme(v, a, b);
    let b2 = cut_path(v, a1, b);
    let a3 = strip_userinfo(v, a1, b2);
    let b4 = strip_port(v, a3, b2);
    (a3, b4)
}

/// Normalises the characters `v[lo..hi]` into a canonical domain.
pub fn normalize_range(v: &[char], lo: usize, hi: usize) -> (r: Result<Vec<char>, BlockerError>)
    requires
        lo <= hi <= v@.len(),
    ensures
        match r {
            Ok(d) => normalize(v@.subrange(lo as int, hi as int)) == Ok::<
                Seq<char>,
                BlockerErrorView,
            >(d@),
            Err(e) => normalize(v@.subrange(lo as int, hi as int)) == Err::<
                Seq<char>,
                BlockerErrorView,
            >(e@),
        },
{
    let ghost input = v@.subrange(lo as int, hi as int);
    let (a, b) = trim_range(v, lo, hi);
    if a == b {
        return Err(BlockerError::EmptyDomain);
    }
    let (a1, b1) = host_range(v, a, b);
    let (c, d) = trim_range(v, a1, b1);
    let c2 = skip_class_start(v, c, d, CharClass::Dot);
    let d2 = skip_class_end(v, c2, d, CharClass::Dot);
    let candidate = lower_range(v, c2, d2);
    assert(candidate@ == domain_candidate(input));
    match validate_domain(candidate.as_slice()) {
        Ok(()) => Ok(candidate),
        Err(e) => Err(e),
    }
}

/// Normalises user input or a DNS query name into a canonical domain.
///
/// `Ads.Example.Com.`, `https://ads.example.com/path` and
/// `ads.example.com:443` all give `ads.example.com`. Only ASCII domains are
/// accepted.
pub fn normalize_domain(input: &str) -> (r: Result<String, BlockerError>)
    ensures
        result_view(r) == normalize(input@),
{
    let v = chars_of(input);
    assert(v@.subrange(0, v@.len() as int) =~= v@);
    match normalize_range(v.as_slice(), 0, v.len()) {
        Ok(d) => Ok(string_from_chars(d.as_slice())),
        Err(e) => Err(e),
    }
}

/// A canonical domain: valid and free of ASCII upper-case letters.
pub open spec fn is_canonical(d: Seq<char>) -> bool {
    &&& valid_domain(d)
    &&& forall|i: int| 0 <= i < d.len() ==> !is_ascii_upper(#[trigger] d[i])
}

/// What `normalize` returns on success is canonical.
pub proof fn lemma_normalized_is_canonical(input: Seq<char>)
    requires
        normalize(input) is Ok,
    ensures
        is_canonical(normalize(input)->Ok_0),
{
    let d = normalize(input)->Ok_0;
    assert forall|i: int| 0 <= i < d.len() implies !is_ascii_upper(#[trigger] d[i]) by {
        let x = trim_end(trim_start(trim(host_part(trim(input))), CharClass::Dot), CharClass::Dot);
        assert(d[i] == ascii_lower(x[i]));
    }
}

proof fn lemma_trim_start_noop(s: Seq<char>, k: CharClass)
    requires
        s.len() > 0 ==> !in_class(k, s[0]),
    ensures
        trim_start(s, k) == s,
{
}

proof fn lemma_trim_end_noop(s: Seq<char>, k: CharClass)
    requires
        s.len() > 0 ==> !in_class(k, s.last()),
    ensures
        trim_end(s, k) == s,
{
}

/// A canonical domain normalises to itself.
pub proof fn lemma_canonical_normalizes_to_itself(d: Seq<char>)
    requires
        is_canonical(d),
    ensures
        normalize(d) == Ok::<Seq<char>, BlockerErrorView>(d),
{
    assert(valid_at(d, 0));
    assert(valid_at(d, d.len() - 1));
    lemma_trim_start_noop(d, CharClass::Whitespace);
    lemma_trim_end_noop(d, CharClass::Whitespace);
    assert(trim(d) == d);
    // No `://`, `/`, `?`, `#`, `@` or `:` occurs in a canonical domain.
    lemma_find_from_bounds(d, scheme_sep(), 0);
    if find(d, scheme_sep()) is Some {
        let j = find(d, scheme_sep())->Some_0;
        assert(d.subrange(j, j + 3)[0] == ':');
        assert(valid_at(d, j));
    }
    assert(after_scheme(d) == d);
    lemma_first_in_from_bounds(d, CharClass::PathStart, 0);
    if first_in(d, CharClass::PathStart) is Some {
        assert(valid_at(d, first_in(d, CharClass::PathStart)->Some_0));
    }
    assert(before_path(d) == d);
    lemma_last_before_bounds(d, '@', d.len() as int);
    if rfind(d, '@') is Some {
        assert(valid_at(d, rfind(d, '@')->Some_0));
    }
    assert(after_userinfo(d) == d);
    lemma_last_before_bounds(d, ':', d.len() as int);
    if rfind(d, ':') is Some {
        assert(valid_at(d, rfind(d, ':')->Some_0));
    }
    assert(without_port(d) == d);
    assert(host_part(d) == d);
    lemma_trim_start_noop(d, CharClass::Dot);
    lemma_trim_end_noop(d, CharClass::Dot);
    assert forall|i: int| 0 <= i < d.len() implies #[trigger] lower_seq(d)[i] == d[i] by {
        assert(!is_ascii_upper(d[i]));
    }
    assert(lower_seq(d) =~= d);
    assert(domain_candidate(d) == d);
}

/// Normalisation is idempotent: a normalised domain normalises to itself.
pub proof fn law_normalize_idempotent(input: Seq<char>)
    requires
        normalize(input) is Ok,
    ensures
        normalize(normalize(input)->Ok_0) == normalize(input),
{
    lemma_normalized_is_canonical(input);
    lemma_canonical_normalizes_to_itself(normalize(input)->Ok_0);
}

} // verus!
