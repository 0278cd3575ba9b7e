//! Loading rules from text: hosts files, adblock-style lists and plain lists
//! of domains.
use vstd::prelude::*;

use crate::rule::{has_domain, new_rule, opt_str_view, Rule, RuleSet, RuleView};
use crate::text::{
    chars_of, contains, contains_range, ends_with, ends_with_range, eq_ignore_ascii_case,
    eq_ignore_ascii_case_range, equals_range, find, find_in, first_in, first_in_range,
    is_ascii_alnum, skip_class_end, skip_class_start, starts_with, starts_with_range,
    string_from_range, trim, trim_end, trim_range, trim_start, CharClass,
};

verus! {

// ---------------------------------------------------------------------------
// Words (`split_whitespace`)
// ---------------------------------------------------------------------------

/// End of the leading run of non-whitespace characters of `t`.
pub open spec fn word_end(t: Seq<char>) -> int {
    match first_in(t, CharClass::Whitespace) {
        Some(i) => i,
        None => t.len() as int,
    }
}

/// The first whitespace-separated word, if any.
pub open spec fn first_word(s: Seq<char>) -> Option<Seq<char>> {
    let t = trim_start(s, CharClass::Whitespace);
    if t.len() == 0 {
        None
    } else {
        Some(t.take(word_end(t)))
    }
}

/// What follows the first whitespace-separated word.
pub open spec fn after_first_word(s: Seq<char>) -> Seq<char> {
    let t = trim_start(s, CharClass::Whitespace);
    t.skip(word_end(t))
}

/// The text splits into exactly one whitespace-separated word.
pub open spec fn is_single_word(s: Seq<char>) -> bool {
    first_word(s) is Some && first_word(after_first_word(s)) is None
}

proof fn lemma_first_in_from_bounds(s: Seq<char>, k: CharClass, i: int)
    requires
        0 <= i,
    ensures
        first_in_from_some(s, k, i),
    decreases s.len() - i,
{
    if i < 0 || i >= s.len() {
    } else if crate::text::in_class(k, s[i]) {
    } else {
        lemma_first_in_from_bounds(s, k, i + 1);
    }
}

spec fn first_in_from_some(s: Seq<char>, k: CharClass, i: int) -> bool {
    crate::text::first_in_from(s, k, i) matches Some(j) ==> i <= j < s.len() && crate::text::in_class(
        k,
        s[j],
    )
}

/// The first word of `v[lo..hi]` as a window `(start, end)`, and the position
/// where the rest begins (`end`).
pub(crate) fn first_word_range(v: &[char], lo: usize, hi: usize) -> (r: Option<(usize, usize)>)
    requires
        lo <= hi <= v@.len(),
    ensures
        match first_word(v@.subrange(lo as int, hi as int)) {
            Some(w) => r matches Some((a, b)) && lo <= a <= b <= hi && v@.subrange(a as int, b as int)
                == w && v@.subrange(b as int, hi as int) == after_first_word(
                v@.subrange(lo as int, hi as int),
            ),
            None => r is None && after_first_word(v@.subrange(lo as int, hi as int)).len() == 0,
        },
{
    let a = skip_class_start(v, lo, hi, CharClass::Whitespace);
    let ghost t = v@.subrange(a as int, hi as int);
    if a == hi {
        return None;
    }
    match first_in_range(v, a, hi, CharClass::Whitespace) {
        Some(i) => {
            proof {
                lemma_first_in_from_bounds(t, CharClass::Whitespace, 0);
                assert(t.take(i as int) =~= v@.subrange(a as int, a + i));
                assert(t.skip(i as int) =~= v@.subrange(a + i, hi as int));
            }
            Some((a, a + i))
        },
        None => {
            assert(t.take(t.len() as int) =~= t);
            assert(t.skip(t.len() as int) =~= v@.subrange(hi as int, hi as int));
            Some((a, hi))
        },
    }
}

// ---------------------------------------------------------------------------
// Hosts-file lines
// ---------------------------------------------------------------------------

/// An address that hosts files use to send a name nowhere.
pub open spec fn redirect_address_word(w: Seq<char>) -> bool {
    ||| w == seq!['0', '.', '0', '.', '0', '.', '0']
    ||| w == seq![':', ':']
    ||| w == seq![':', ':', '1']
    ||| w == seq!['1', '2', '7', '.', '0', '.', '0', '.', '1']
    ||| starts_with(w, seq!['1', '2', '7', '.'])
}

fn is_redirect_address(v: &[char], lo: usize, hi: usize) -> (b: bool)
    requires
        lo <= hi <= v@.len(),
    ensures
        b == redirect_address_word(v@.subrange(lo as int, hi as int)),
{
    let r1 = equals_range(v, lo, hi, &['0', '.', '0', '.', '0', '.', '0']);
    let r2 = equals_range(v, lo, hi, &[':', ':']);
    let r3 = equals_range(v, lo, hi, &[':', ':', '1']);
    let r4 = equals_range(v, lo, hi, &['1', '2', '7', '.', '0', '.', '0', '.', '1']);
    let r5 = starts_with_range(v, lo, hi, &['1', '2', '7', '.']);
    r1 || r2 || r3 || r4 || r5
}

/// `localhost`.
pub open spec fn localhost() -> Seq<char> {
    seq!['l', 'o', 'c', 'a', 'l', 'h', 'o', 's', 't']
}

/// The domain of a hosts-file line `<redirect address> <domain> ...`,
/// unless the domain is `localhost` (in any case).
pub open spec fn hosts_domain(c: Seq<char>) -> Option<Seq<char>> {
    match first_word(c) {
        Some(w1) => match first_word(after_first_word(c)) {
            Some(w2) => if redirect_address_word(w1) && !eq_ignore_ascii_case(w2, localhost()) {
                Some(w2)
            } else {
                None
            },
            None => None,
        },
        None => None,
    }
}

fn parse_hosts_line(v: &[char], lo: usize, hi: usize) -> (r: Option<(usize, usize)>)
    requires
        lo <= hi <= v@.len(),
    ensures
        match hosts_domain(v@.subrange(lo as int, hi as int)) {
            Some(d) => r matches Some((a, b)) && lo <= a <= b <= hi && v@.subrange(a as int, b as int)
                == d,
            None => r is None,
        },
{
    let (a1, b1) = match first_word_range(v, lo, hi) {
        Some(w) => w,
        None => return None,
    };
    let (a2, b2) = match first_word_range(v, b1, hi) {
        Some(w) => w,
        None => return None,
    };
    let lh: [char; 9] = ['l', 'o', 'c', 'a', 'l', 'h', 'o', 's', 't'];
    assert(lh@ =~= localhost());
    if is_redirect_address(v, a1, b1) && !eq_ignore_ascii_case_range(v, a2, b2, &lh) {
        Some((a2, b2))
    } else {
        None
    }
}

// ---------------------------------------------------------------------------
// Adblock domain anchors (`||domain^`)
// ---------------------------------------------------------------------------

/// A character that an adblock domain anchor may hold.
pub open spec fn is_anchor_char(c: char) -> bool {
    is_ascii_alnum(c) || c == '-' || c == '_' || c == '.'
}

/// Length of the leading run of anchor characters.
pub open spec fn anchor_prefix_len(s: Seq<char>) -> nat
    decreases s.len(),
{
    if s.len() > 0 && is_anchor_char(s[0]) {
        1 + anchor_prefix_len(s.drop_first())
    } else {
        0
    }
}

/// The domain of an adblock anchor rule `||domain...`: the leading anchor
/// characters after `||`, without leading and trailing dots, when not empty.
pub open spec fn adblock_domain(c: Seq<char>) -> Option<Seq<char>> {
    if starts_with(c, seq!['|', '|']) {
        let rest = c.skip(2);
        let d = trim_end(
            trim_start(rest.take(anchor_prefix_len(rest) as int), CharClass::Dot),
            CharClass::Dot,
        );
        if d.len() == 0 {
            None
        } else {
            Some(d)
        }
    } else {
        None
    }
}

fn parse_adblock_domain_anchor(v: &[char], lo: usize, hi: usize) -> (r: Option<(usize, usize)>)
    requires
        lo <= hi <= v@.len(),
    ensures
        match adblock_domain(v@.subrange(lo as int, hi as int)) {
            Some(d) => r matches Some((a, b)) && lo <= a <= b <= hi && v@.subrange(a as int, b as int)
                == d,
            None => r is None,
        },
{
    let ghost c = v@.subrange(lo as int, hi as int);
    if !starts_with_range(v, lo, hi, &['|', '|']) {
        return None;
    }
    let start = lo + 2;
    let ghost rest = c.skip(2);
    assert(rest =~= v@.subrange(start as int, hi as int));
    let mut i = start;
    while i < hi && (('0' <= v[i] && v[i] <= '9') || ('A' <= v[i] && v[i] <= 'Z') || ('a' <= v[i]
        && v[i] <= 'z') || v[i] == '-' || v[i] == '_' || v[i] == '.')
        invariant
            start <= i <= hi <= v@.len(),
            rest == v@.subrange(start as int, hi as int),
            anchor_prefix_len(rest) == (i - start) + anchor_prefix_len(
                v@.subrange(i as int, hi as int),
            ),
        decreases hi - i,
    {
        assert(v@.subrange(i as int, hi as int).drop_first() =~= v@.subrange(i + 1, hi as int));
        i = i + 1;
    }
    assert(anchor_prefix_len(v@.subrange(i as int, hi as int)) == 0);
    assert(rest.take(anchor_prefix_len(rest) as int) =~= v@.subrange(start as int, i as int));
    let a = skip_class_start(v, start, i, CharClass::Dot);
    let b = skip_class_end(v, a, i, CharClass::Dot);
    if a == b {
        None
    } else {
        Some((a, b))
    }
}

// ---------------------------------------------------------------------------
// Plain domain lines
// ---------------------------------------------------------------------------

/// A candidate that reads as a plain domain, possibly with a `*.` prefix, a
/// trailing `^` or `|`, or an `http://` / `https://` URL.
pub open spec fn looks_like_plain_domain(candidate: Seq<char>) -> bool {
    let c = trim(candidate);
    &&& c.len() > 0
    &&& is_single_word(c)
    &&& !starts_with(c, seq!['/'])
    &&& contains(c, seq!['*']) ==> starts_with(c, seq!['*', '.'])
    &&& contains(c, seq!['^']) ==> ends_with(c, seq!['^'])
    &&& contains(c, seq!['|']) ==> ends_with(c, seq!['|'])
    &&& contains(c, seq!['/']) ==> (starts_with(c, seq!['h', 't', 't', 'p', ':', '/', '/'])
        || starts_with(c, seq!['h', 't', 't', 'p', 's', ':', '/', '/']))
}

fn looks_like_plain_domain_candidate(v: &[char], lo: usize, hi: usize) -> (b: bool)
    requires
        lo <= hi <= v@.len(),
    ensures
        b == looks_like_plain_domain(v@.subrange(lo as int, hi as int)),
{
    let (a, e) = trim_range(v, lo, hi);
    let ghost c = v@.subrange(a as int, e as int);
    if a == e {
        return false;
    }
    let single = match first_word_range(v, a, e) {
        Some((_, w_end)) => {
            assert(v@.subrange(w_end as int, e as int) == after_first_word(c));
            first_word_range(v, w_end, e).is_none()
        },
        None => false,
    };
    assert(single == is_single_word(c));
    if !single {
        return false;
    }
    let slash: [char; 1] = ['/'];
    let star: [char; 1] = ['*'];
    let star_dot: [char; 2] = ['*', '.'];
    let caret: [char; 1] = ['^'];
    let pipe: [char; 1] = ['|'];
    let http: [char; 7] = ['h', 't', 't', 'p', ':', '/', '/'];
    let https: [char; 8] = ['h', 't', 't', 'p', 's', ':', '/', '/'];
    assert(slash@ =~= seq!['/']);
    assert(star@ =~= seq!['*']);
    assert(star_dot@ =~= seq!['*', '.']);
    assert(caret@ =~= seq!['^']);
    assert(pipe@ =~= seq!['|']);
    assert(http@ =~= seq!['h', 't', 't', 'p', ':', '/', '/']);
    assert(https@ =~= seq!['h', 't', 't', 'p', 's', ':', '/', '/']);
    if starts_with_range(v, a, e, &slash) {
        return false;
    }
    if contains_range(v, a, e, &star) && !starts_with_range(v, a, e, &star_dot) {
        return false;
    }
    if contains_range(v, a, e, &caret) && !ends_with_range(v, a, e, &caret) {
        return false;
    }
    if contains_range(v, a, e, &pipe) && !ends_with_range(v, a, e, &pipe) {
        return false;
    }
    if contains_range(v, a, e, &slash) && !starts_with_range(v, a, e, &http) && !starts_with_range(
        v,
        a,
        e,
        &https,
    ) {
        return false;
    }
    true
}

/// `trim_start_matches("*.")`: every leading `*.` removed.
pub open spec fn strip_star_dots(s: Seq<char>) -> Seq<char>
    decreases s.len(),
{
    if s.len() >= 2 && s[0] == '*' && s[1] == '.' {
        strip_star_dots(s.skip(2))
    } else {
        s
    }
}

/// The domain text of a plain candidate: trimmed, without leading `*.`,
/// without trailing `^` and then without trailing `|`.
pub open spec fn clean_plain_domain(candidate: Seq<char>) -> Seq<char> {
    trim_end(trim_end(strip_star_dots(trim(candidate)), CharClass::Caret), CharClass::Pipe)
}

fn clean_plain_domain_candidate(v: &[char], lo: usize, hi: usize) -> (r: (usize, usize))
    requires
        lo <= hi <= v@.len(),
    ensures
        lo <= r.0 <= r.1 <= hi,
        v@.subrange(r.0 as int, r.1 as int) == clean_plain_domain(v@.subrange(lo as int, hi as int)),
{
    let (a0, e) = trim_range(v, lo, hi);
    let mut a = a0;
    while e - a >= 2 && v[a] == '*' && v[a + 1] == '.'
        invariant
            lo <= a0 <= a <= e <= hi <= v@.len(),
            strip_star_dots(v@.subrange(a0 as int, e as int)) == strip_star_dots(
                v@.subrange(a as int, e as int),
            ),
        decreases e - a,
    {
        assert(v@.subrange(a as int, e as int).skip(2) =~= v@.subrange(a + 2, e as int));
        a = a + 2;
    }
    let b1 = skip_class_end(v, a, e, CharClass::Caret);
    let b2 = skip_class_end(v, a, b1, CharClass::Pipe);
    (a, b2)
}

// ---------------------------------------------------------------------------
// Whole lines
// ---------------------------------------------------------------------------

/// The line cut before an inline comment (` #` or a tab followed by `#`).
pub open spec fn before_inline_comment(line: Seq<char>) -> Seq<char> {
    match (find(line, seq![' ', '#']), find(line, seq!['\t', '#'])) {
        (Some(a), Some(b)) => line.take(if a <= b {
            a
        } else {
            b
        }),
        (Some(a), None) => line.take(a),
        (None, Some(b)) => line.take(b),
        (None, None) => line,
    }
}

/// A cosmetic (element-hiding) filter, which DNS-level blocking cannot apply.
pub open spec fn has_cosmetic_marker(line: Seq<char>) -> bool {
    ||| contains(line, seq!['#', '#'])
    ||| contains(line, seq!['#', '@', '#'])
    ||| contains(line, seq!['#', '?', '#'])
    ||| contains(line, seq!['#', '$', '#'])
}

/// Why a cosmetic filter line is skipped.
pub open spec fn cosmetic_reason() -> Seq<char> {
    "cosmetic filter syntax is not supported by DNS-level blocking"@
}

/// Why a line of unknown syntax is skipped.
pub open spec fn unsupported_reason() -> Seq<char> {
    "unsupported rule syntax"@
}

/// Why a line whose domain is invalid is skipped.
pub open spec fn invalid_domain_reason() -> Seq<char> {
    "invalid domain rule"@
}

/// What a line of a rule list holds.
pub enum ParsedLineView {
    Ignore,
    Skip(Seq<char>),
    Rule { domain: Seq<char>, is_allow_rule: bool },
}

/// The rule candidate of a line that is neither blank, a comment nor a
/// cosmetic filter: without `@@` and without `$options`.
pub open spec fn rule_candidate(l2: Seq<char>) -> Seq<char> {
    let cand = if starts_with(l2, seq!['@', '@']) {
        trim(l2.skip(2))
    } else {
        l2
    };
    match first_in(cand, CharClass::Dollar) {
        Some(i) => trim(cand.take(i)),
        None => cand,
    }
}

/// The domain of a rule candidate, by the first syntax that reads it.
pub open spec fn candidate_domain(c: Seq<char>) -> Option<Seq<char>> {
    match hosts_domain(c) {
        Some(d) => Some(d),
        None => match adblock_domain(c) {
            Some(d) => Some(d),
            None => if looks_like_plain_domain(c) {
                Some(clean_plain_domain(c))
            } else {
                None
            },
        },
    }
}

/// How one line of a rule list reads.
pub open spec fn parse_line(raw: Seq<char>) -> ParsedLineView {
    let line = trim(raw);
    if line.len() == 0 {
        ParsedLineView::Ignore
    } else if line[0] == '#' || line[0] == '!' || line[0] == '[' {
        ParsedLineView::Ignore
    } else if has_cosmetic_marker(line) {
        ParsedLineView::Skip(cosmetic_reason())
    } else {
        let l2 = trim(before_inline_comment(line));
        if l2.len() == 0 {
            ParsedLineView::Ignore
        } else {
            match candidate_domain(rule_candidate(l2)) {
                Some(d) => ParsedLineView::Rule {
                    domain: d,
                    is_allow_rule: starts_with(l2, seq!['@', '@']),
                },
                None => ParsedLineView::Skip(unsupported_reason()),
            }
        }
    }
}

fn strip_inline_comment(v: &[char], lo: usize, hi: usize) -> (r: usize)
    requires
        lo <= hi <= v@.len(),
    ensures
        lo <= r <= hi,
        v@.subrange(lo as int, r as int) == before_inline_comment(v@.subrange(lo as int, hi as int)),
{
    let ghost line = v@.subrange(lo as int, hi as int);
    let sp: [char; 2] = [' ', '#'];
    let tb: [char; 2] = ['\t', '#'];
    assert(sp@ =~= seq![' ', '#']);
    assert(tb@ =~= seq!['\t', '#']);
    let a = find_in(v, lo, hi, &sp);
    let b = find_in(v, lo, hi, &tb);
    proof {
        crate::text::lemma_find_from_bounds(line, seq![' ', '#'], 0);
        crate::text::lemma_find_from_bounds(line, seq!['\t', '#'], 0);
    }
    let cut = match (a, b) {
        (Some(x), Some(y)) => if x <= y {
            x
        } else {
            y
        },
        (Some(x), None) => x,
        (None, Some(y)) => y,
        (None, None) => hi - lo,
    };
    assert(line.take(cut as int) =~= v@.subrange(lo as int, lo + cut));
    assert(line =~= v@.subrange(lo as int, hi as int));
    lo + cut
}

fn is_cosmetic_filter(v: &[char], lo: usize, hi: usize) -> (b: bool)
    requires
        lo <= hi <= v@.len(),
    ensures
        b == has_cosmetic_marker(v@.subrange(lo as int, hi as int)),
{
    let p1: [char; 2] = ['#', '#'];
    let p2: [char; 3] = ['#', '@', '#'];
    let p3: [char; 3] = ['#', '?', '#'];
    let p4: [char; 3] = ['#', '$', '#'];
    assert(p1@ =~= seq!['#', '#']);
    assert(p2@ =~= seq!['#', '@', '#']);
    assert(p3@ =~= seq!['#', '?', '#']);
    assert(p4@ =~= seq!['#', '$', '#']);
    contains_range(v, lo, hi, &p1) || contains_range(v, lo, hi, &p2) || contains_range(
        v,
        lo,
        hi,
        &p3,
    ) || contains_range(v, lo, hi, &p4)
}

/// A parsed line.
enum ParsedLine {
    Ignore,
    Skip(String),
    Rule { domain: String, is_allow_rule: bool },
}

impl View for ParsedLine {
    type V = ParsedLineView;

    closed spec fn view(&self) -> ParsedLineView {
        match self {
            ParsedLine::Ignore => ParsedLineView::Ignore,
            ParsedLine::Skip(r) => ParsedLineView::Skip(r@),
            ParsedLine::Rule { domain, is_allow_rule } => ParsedLineView::Rule {
                domain: domain@,
                is_allow_rule: *is_allow_rule,
            },
        }
    }
}

/// The rule candidate of `v[lo..hi]` as a window.
fn rule_candidate_range(v: &[char], lo: usize, hi: usize) -> (r: (usize, usize))
    requires
        lo <= hi <= v@.len(),
    ensures
        lo <= r.0 <= r.1 <= hi,
        v@.subrange(r.0 as int, r.1 as int) == rule_candidate(v@.subrange(lo as int, hi as int)),
{
    let ghost l2 = v@.subrange(lo as int, hi as int);
    let at: [char; 2] = ['@', '@'];
    assert(at@ =~= seq!['@', '@']);
    let (a, b) = if starts_with_range(v, lo, hi, &at) {
        assert(l2.skip(2) =~= v@.subrange(lo + 2, hi as int));
        trim_range(v, lo + 2, hi)
    } else {
        (lo, hi)
    };
    let ghost cand = v@.subrange(a as int, b as int);
    match first_in_range(v, a, b, CharClass::Dollar) {
        Some(i) => {
            proof {
                lemma_first_in_from_bounds(cand, CharClass::Dollar, 0);
                assert(cand.take(i as int) =~= v@.subrange(a as int, a + i));
            }
            trim_range(v, a, a + i)
        },
        None => (a, b),
    }
}

/// The domain of the candidate `v[lo..hi]`, as a window.
fn candidate_domain_range(v: &[char], lo: usize, hi: usize) -> (r: Option<(usize, usize)>)
    requires
        lo <= hi <= v@.len(),
    ensures
        match candidate_domain(v@.subrange(lo as int, hi as int)) {
            Some(d) => r matches Some((a, b)) && a <= b <= v@.len() && v@.subrange(a as int, b as int)
                == d,
            None => r is None,
        },
{
    if let Some(w) = parse_hosts_line(v, lo, hi) {
        return Some(w);
    }
    if let Some(w) = parse_adblock_domain_anchor(v, lo, hi) {
        return Some(w);
    }
    if looks_like_plain_domain_candidate(v, lo, hi) {
        return Some(clean_plain_domain_candidate(v, lo, hi));
    }
    None
}

/// Reads one line of a rule list.
fn parse_rule_line(v: &[char], lo: usize, hi: usize) -> (r: ParsedLine)
    requires
        lo <= hi <= v@.len(),
    ensures
        r@ == parse_line(v@.subrange(lo as int, hi as int)),
{
    let (a, b) = trim_range(v, lo, hi);
    let ghost line = v@.subrange(a as int, b as int);
    if a == b {
        return ParsedLine::Ignore;
    }
    if v[a] == '#' || v[a] == '!' || v[a] == '[' {
        return ParsedLine::Ignore;
    }
    if is_cosmetic_filter(v, a, b) {
        return ParsedLine::Skip("cosmetic filter syntax is not supported by DNS-level blocking".to_owned());
    }
    let c = strip_inline_comment(v, a, b);
    let (a2, b2) = trim_range(v, a, c);
    if a2 == b2 {
        return ParsedLine::Ignore;
    }
    let at: [char; 2] = ['@', '@'];
    assert(at@ =~= seq!['@', '@']);
    let is_allow_rule = starts_with_range(v, a2, b2, &at);
    let (ca, cb) = rule_candidate_range(v, a2, b2);
    match candidate_domain_range(v, ca, cb) {
        Some((da, db)) => ParsedLine::Rule { domain: string_from_range(v, da, db), is_allow_rule },
        None => ParsedLine::Skip("unsupported rule syntax".to_owned()),
    }
}

// ---------------------------------------------------------------------------
// Lines (`str::lines`)
// ---------------------------------------------------------------------------

/// A line without its trailing carriage return.
pub open spec fn strip_cr(l: Seq<char>) -> Seq<char> {
    if l.len() > 0 && l.last() == '\r' {
        l.drop_last()
    } else {
        l
    }
}

/// The lines of `s` from position `i` on, the current line starting at
/// `start`: lines end at `\n` (a `\r` before it is dropped), and a final
/// line ending adds no empty line.
pub open spec fn lines_from(s: Seq<char>, start: int, i: int) -> Seq<Seq<char>>
    decreases s.len() - i,
{
    if i < 0 || i >= s.len() {
        if 0 <= start < s.len() {
            seq![s.subrange(start, s.len() as int)]
        } else {
            seq![]
        }
    } else if s[i] == '\n' {
        seq![strip_cr(s.subrange(start, i))] + lines_from(s, i + 1, i + 1)
    } else {
        lines_from(s, start, i + 1)
    }
}

/// `str::lines`.
pub open spec fn lines(s: Seq<char>) -> Seq<Seq<char>> {
    lines_from(s, 0, 0)
}

// ---------------------------------------------------------------------------
// Loading
// ---------------------------------------------------------------------------

/// A line that was not loaded, with its 1-based number and the reason.
#[derive(Debug, Clone, PartialEq, Eq)]
pub struct RuleLoadIssue {
    pub line_number: usize,
    pub line: String,
    pub reason: String,
}

/// What loading a rule list did.
#[derive(Debug, Clone, PartialEq, Eq)]
pub struct RuleLoadReport {
    pub added_block_rules: usize,
    pub added_allow_rules: usize,
    pub ignored_lines: usize,
    pub skipped_rules: Vec<RuleLoadIssue>,
}

/// The rules that a text holds, and the report of loading them.
#[derive(Debug, Clone)]
pub struct LoadedRules {
    pub blocklist: RuleSet,
    pub allowlist: RuleSet,
    pub report: RuleLoadReport,
}

pub struct IssueView {
    pub line_number: nat,
    pub line: Seq<char>,
    pub reason: Seq<char>,
}

pub struct ReportView {
    pub added_block_rules: nat,
    pub added_allow_rules: nat,
    pub ignored_lines: nat,
    pub skipped_rules: Seq<IssueView>,
}

pub struct LoadView {
    pub blocklist: Seq<RuleView>,
    pub allowlist: Seq<RuleView>,
    pub report: ReportView,
}

impl View for RuleLoadIssue {
    type V = IssueView;

    open spec fn view(&self) -> IssueView {
        IssueView { line_number: self.line_number as nat, line: self.line@, reason: self.reason@ }
    }
}

impl View for RuleLoadReport {
    type V = ReportView;

    open spec fn view(&self) -> ReportView {
        ReportView {
            added_block_rules: self.added_block_rules as nat,
            added_allow_rules: self.added_allow_rules as nat,
            ignored_lines: self.ignored_lines as nat,
            skipped_rules: self.skipped_rules@.map_values(|i: RuleLoadIssue| i@),
        }
    }
}

impl View for LoadedRules {
    type V = LoadView;

    open spec fn view(&self) -> LoadView {
        LoadView { blocklist: self.blocklist@, allowlist: self.allowlist@, report: self.report@ }
    }
}

/// The report of a load that has not read any line.
pub open spec fn empty_report() -> ReportView {
    ReportView {
        added_block_rules: 0,
        added_allow_rules: 0,
        ignored_lines: 0,
        skipped_rules: Seq::empty(),
    }
}

impl Default for RuleLoadReport {
    fn default() -> (r: Self)
        ensures
            r@ == empty_report(),
    {
        let r = RuleLoadReport {
            added_block_rules: 0,
            added_allow_rules: 0,
            ignored_lines: 0,
            skipped_rules: Vec::new(),
        };
        assert(r@.skipped_rules =~= Seq::<IssueView>::empty());
        r
    }
}

impl RuleLoadReport {
    /// Block and allow rules added together.
    pub fn total_added(&self) -> (n: usize)
        requires
            self.added_block_rules + self.added_allow_rules <= usize::MAX,
        ensures
            n == self.added_block_rules + self.added_allow_rules,
    {
        self.added_block_rules + self.added_allow_rules
    }

    /// Number of skipped lines.
    pub fn skipped_count(&self) -> (n: usize)
        ensures
            n == self@.skipped_rules.len(),
    {
        self.skipped_rules.len()
    }
}

/// The state after reading line number `number` (1-based) holding `raw`.
pub open spec fn load_line(
    st: LoadView,
    number: nat,
    raw: Seq<char>,
    source: Option<Seq<char>>,
    category: Option<Seq<char>>,
) -> LoadView {
    match parse_line(raw) {
        ParsedLineView::Ignore => LoadView {
            report: ReportView { ignored_lines: st.report.ignored_lines + 1, ..st.report },
            ..st
        },
        ParsedLineView::Skip(reason) => LoadView {
            report: ReportView {
                skipped_rules: st.report.skipped_rules.push(
                    IssueView { line_number: number, line: raw, reason },
                ),
                ..st.report
            },
            ..st
        },
        ParsedLineView::Rule { domain, is_allow_rule } => match new_rule(domain, source, category) {
            Err(_) => LoadView {
                report: ReportView {
                    skipped_rules: st.report.skipped_rules.push(
                        IssueView { line_number: number, line: raw, reason: invalid_domain_reason() },
                    ),
                    ..st.report
                },
                ..st
            },
            Ok(rv) => if is_allow_rule {
                if has_domain(st.allowlist, rv.domain) {
                    st
                } else {
                    LoadView {
                        allowlist: st.allowlist.push(rv),
                        report: ReportView {
                            added_allow_rules: st.report.added_allow_rules + 1,
                            ..st.report
                        },
                        ..st
                    }
                }
            } else {
                if has_domain(st.blocklist, rv.domain) {
                    st
                } else {
                    LoadView {
                        blocklist: st.blocklist.push(rv),
                        report: ReportView {
                            added_block_rules: st.report.added_block_rules + 1,
                            ..st.report
                        },
                        ..st
                    }
                }
            },
        },
    }
}

/// The state after reading the lines `ls`, numbered from 1.
pub open spec fn load_lines(
    ls: Seq<Seq<char>>,
    source: Option<Seq<char>>,
    category: Option<Seq<char>>,
) -> LoadView
    decreases ls.len(),
{
    if ls.len() == 0 {
        LoadView { blocklist: Seq::empty(), allowlist: Seq::empty(), report: empty_report() }
    } else {
        load_line(
            load_lines(ls.drop_last(), source, category),
            ls.len() as nat,
            ls.last(),
            source,
            category,
        )
    }
}

/// What loading the text gives.
pub open spec fn load_text(
    text: Seq<char>,
    source: Option<Seq<char>>,
    category: Option<Seq<char>>,
) -> LoadView {
    load_lines(lines(text), source, category)
}

/// Number of entries that a report counts.
pub open spec fn report_total(r: ReportView) -> nat {
    r.added_block_rules + r.added_allow_rules + r.ignored_lines + r.skipped_rules.len()
}

/// Reads one line into the lists and the report.
fn load_one_line(
    st: LoadedRules,
    v: &[char],
    lo: usize,
    hi: usize,
    number: usize,
    source: Option<&str>,
    category: Option<&str>,
) -> (r: LoadedRules)
    requires
        lo <= hi <= v@.len(),
        report_total(st@.report) < number,
    ensures
        r@ == load_line(
            st@,
            number as nat,
            v@.subrange(lo as int, hi as int),
            opt_str_view(source),
            opt_str_view(category),
        ),
        report_total(r@.report) <= report_total(st@.report) + 1,
        st.blocklist.wf() ==> r.blocklist.wf(),
        st.allowlist.wf() ==> r.allowlist.wf(),
{
    let ghost before = st.report@;
    let mut st = st;
    match parse_rule_line(v, lo, hi) {
        ParsedLine::Ignore => {
            st.report.ignored_lines = st.report.ignored_lines + 1;
        },
        ParsedLine::Skip(reason) => {
            let issue = RuleLoadIssue { line_number: number, line: string_from_range(v, lo, hi), reason };
            st.report.skipped_rules.push(issue);
            assert(st.report@.skipped_rules =~= before.skipped_rules.push(issue@));
        },
        ParsedLine::Rule { domain, is_allow_rule } => {
            match Rule::new(domain.as_str(), source, category) {
                Err(_) => {
                    let issue = RuleLoadIssue {
                        line_number: number,
                        line: string_from_range(v, lo, hi),
                        reason: "invalid domain rule".to_owned(),
                    };
                    st.report.skipped_rules.push(issue);
                    assert(st.report@.skipped_rules =~= before.skipped_rules.push(issue@));
                },
                Ok(rule) => {
                    if is_allow_rule {
                        if st.allowlist.add(rule) {
                            st.report.added_allow_rules = st.report.added_allow_rules + 1;
                        }
                    } else if st.blocklist.add(rule) {
                        st.report.added_block_rules = st.report.added_block_rules + 1;
                    }
                },
            }
        },
    }
    st
}

/// Reads the rules of a text: hosts-file lines, adblock domain anchors
/// (`||domain^`, exceptions `@@||domain^`) and plain domains, one per line.
/// Blank lines and comments are ignored; other lines are skipped and reported.
pub fn load_rules_from_text(text: &str, source: Option<&str>, category: Option<&str>) -> (r:
    LoadedRules)
    ensures
        r@ == load_text(text@, opt_str_view(source), opt_str_view(category)),
        r.blocklist.wf(),
        r.allowlist.wf(),
{
    let v = chars_of(text);
    let n = v.len();
    let ghost s = v@;
    let ghost src = opt_str_view(source);
    let ghost cat = opt_str_view(category);
    let vs = v.as_slice();
    let mut st = LoadedRules {
        blocklist: RuleSet::new(),
        allowlist: RuleSet::new(),
        report: RuleLoadReport::default(),
    };
    let ghost mut done: Seq<Seq<char>> = Seq::empty();
    let mut start: usize = 0;
    let mut count: usize = 0;
    let mut i: usize = 0;
    while i < n
        invariant
            count == done.len(),
            src == opt_str_view(source),
            cat == opt_str_view(category),
            vs@ == v@,
            n == v@.len(),
            s == v@,
            start <= i <= n,
            lines(s) == done + lines_from(s, start as int, i as int),
            done.len() <= start,
            st@ == load_lines(done, src, cat),
            report_total(st@.report) <= done.len(),
            st.blocklist.wf(),
            st.allowlist.wf(),
        decreases n - i,
    {
        if v[i] == '\n' {
            let mut end = i;
            if end > start && v[end - 1] == '\r' {
                end = end - 1;
            }
            assert(v@.subrange(start as int, end as int) == strip_cr(v@.subrange(start as int, i as int)));
            st = load_one_line(st, vs, start, end, count + 1, source, category);
            proof {
                let line = v@.subrange(start as int, end as int);
                assert(done.push(line).drop_last() =~= done);
                assert(load_lines(done.push(line), src, cat) == load_line(
                    load_lines(done, src, cat),
                    (done.len() + 1) as nat,
                    line,
                    src,
                    cat,
                ));
                assert(done + lines_from(s, start as int, i as int) =~= done.push(line) + lines_from(
                    s,
                    i + 1,
                    i + 1,
                ));
                done = done.push(line);
            }
            start = i + 1;
            count = count + 1;
        }
        i = i + 1;
    }
    if start < n {
        st = load_one_line(st, vs, start, n, count + 1, source, category);
        proof {
            let line = v@.subrange(start as int, n as int);
            assert(done.push(line).drop_last() =~= done);
            assert(load_lines(done.push(line), src, cat) == load_line(
                load_lines(done, src, cat),
                (done.len() + 1) as nat,
                line,
                src,
                cat,
            ));
            assert(done + lines_from(s, start as int, n as int) =~= done.push(line));
            done = done.push(line);
        }
    } else {
        assert(done + lines_from(s, start as int, n as int) =~= done);
    }
    assert(lines(text@) == done);
    st
}

} // verus!
