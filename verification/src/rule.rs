//! Block and allow rules, and ordered sets of rules without duplicate domains.
use vstd::prelude::*;

use crate::domain::{normalize, normalize_range};
use crate::error::{BlockerError, BlockerErrorView};
use crate::text::{chars_of, starts_with, string_from_chars, trim, trim_range};

verus! {

/// An optional string slice, by its view.
pub open spec fn opt_str_view(o: Option<&str>) -> Option<Seq<char>> {
    match o {
        Some(s) => Some(s@),
        None => None,
    }
}

/// An optional string, by its view.
pub open spec fn opt_string_view(o: Option<String>) -> Option<Seq<char>> {
    match o {
        Some(s) => Some(s@),
        None => None,
    }
}

/// Copies an optional string slice into an optional `String`.
pub fn opt_to_string(o: Option<&str>) -> (r: Option<String>)
    ensures
        opt_string_view(r) == opt_str_view(o),
{
    match o {
        Some(s) => Some(s.to_owned()),
        None => None,
    }
}

/// Borrows an optional `String` as an optional string slice.
pub fn opt_as_str(o: &Option<String>) -> (r: Option<&str>)
    ensures
        opt_str_view(r) == opt_string_view(*o),
{
    match o {
        Some(s) => Some(s.as_str()),
        None => None,
    }
}

/// A rule: a canonical domain, with the list it came from and its category.
#[derive(Debug, Clone, PartialEq, Eq)]
pub struct Rule {
    domain: String,
    source: Option<String>,
    category: Option<String>,
}

/// A rule, with its strings taken as character sequences.
pub struct RuleView {
    pub domain: Seq<char>,
    pub source: Option<Seq<char>>,
    pub category: Option<Seq<char>>,
}

impl View for Rule {
    type V = RuleView;

    closed spec fn view(&self) -> RuleView {
        RuleView {
            domain: self.domain@,
            source: opt_string_view(self.source),
            category: opt_string_view(self.category),
        }
    }
}

/// The raw rule text trimmed, with a leading `*.` wildcard removed.
pub open spec fn strip_wildcard(raw: Seq<char>) -> Seq<char> {
    let t = trim(raw);
    if starts_with(t, seq!['*', '.']) {
        t.skip(2)
    } else {
        t
    }
}

/// The outcome of building a rule from raw text.
pub open spec fn new_rule(
    raw: Seq<char>,
    source: Option<Seq<char>>,
    category: Option<Seq<char>>,
) -> Result<RuleView, BlockerErrorView> {
    match normalize(strip_wildcard(raw)) {
        Ok(d) => Ok(RuleView { domain: d, source, category }),
        Err(_) => Err(BlockerErrorView::InvalidRule(raw)),
    }
}

/// A rule for `rule_domain` matches the query domain `q` when `q` is that
/// domain or one of its subdomains.
pub open spec fn domain_matches(rule_domain: Seq<char>, q: Seq<char>) -> bool {
    ||| q == rule_domain
    ||| {
        &&& q.len() > rule_domain.len()
        &&& q.skip(q.len() - rule_domain.len()) == rule_domain
        &&& q[q.len() - rule_domain.len() - 1] == '.'
    }
}

/// Does `q` match a rule for `d`? (on character slices)
pub fn domain_matches_exec(d: &[char], q: &[char]) -> (b: bool)
    ensures
        b == domain_matches(d@, q@),
{
    let dn = d.len();
    let qn = q.len();
    if qn < dn {
        return false;
    }
    let off = qn - dn;
    let mut i: usize = 0;
    while i < dn
        invariant
            dn == d@.len(),
            qn == q@.len(),
            off == qn - dn,
            i <= dn,
            forall|m: int| 0 <= m < i ==> q@[off + m] == d@[m],
        decreases dn - i,
    {
        if q[off + i] != d[i] {
            assert(q@.skip(off as int)[i as int] != d@[i as int]);
            assert(q@ != d@);
            return false;
        }
        i = i + 1;
    }
    assert(q@.skip(off as int) =~= d@);
    if qn == dn {
        assert(q@ =~= d@);
        true
    } else {
        q[off - 1] == '.'
    }
}

impl Rule {
    /// Builds a rule from raw text such as `example.com` or `*.example.com`.
    /// A text that does not normalise to a valid domain gives
    /// `InvalidRule(raw_domain)`.
    pub fn new(raw_domain: &str, source: Option<&str>, category: Option<&str>) -> (r: Result<
        Self,
        BlockerError,
    >)
        ensures
            match r {
                Ok(rule) => new_rule(raw_domain@, opt_str_view(source), opt_str_view(category))
                    == Ok::<RuleView, BlockerErrorView>(rule@),
                Err(e) => new_rule(raw_domain@, opt_str_view(source), opt_str_view(category))
                    == Err::<RuleView, BlockerErrorView>(e@),
            },
    {
        let v = chars_of(raw_domain);
        let (a, b) = trim_range(v.as_slice(), 0, v.len());
        proof {
            assert(v@.subrange(0, v@.len() as int) =~= v@);
        }
        let ghost t = v@.subrange(a as int, b as int);
        let mut start = a;
        if b - a >= 2 && v[a] == '*' && v[a + 1] == '.' {
            assert(t.take(2) =~= seq!['*', '.']);
            assert(t.skip(2) =~= v@.subrange(a + 2, b as int));
            start = a + 2;
        } else {
            assert(!starts_with(t, seq!['*', '.'])) by {
                if starts_with(t, seq!['*', '.']) {
                    assert(t.take(2)[0] == '*');
                    assert(t.take(2)[1] == '.');
                }
            }
        }
        assert(v@.subrange(start as int, b as int) == strip_wildcard(raw_domain@));
        match normalize_range(v.as_slice(), start, b) {
            Ok(d) => Ok(
                Rule {
                    domain: string_from_chars(d.as_slice()),
                    source: opt_to_string(source),
                    category: opt_to_string(category),
                },
            ),
            Err(_) => Err(BlockerError::InvalidRule(raw_domain.to_owned())),
        }
    }

    /// The domain of this rule.
    pub fn domain(&self) -> (r: &str)
        ensures
            r@ == self@.domain,
    {
        self.domain.as_str()
    }

    /// The list this rule came from.
    pub fn source(&self) -> (r: Option<&str>)
        ensures
            opt_str_view(r) == self@.source,
    {
        opt_as_str(&self.source)
    }

    /// The category of this rule.
    pub fn category(&self) -> (r: Option<&str>)
        ensures
            opt_str_view(r) == self@.category,
    {
        opt_as_str(&self.category)
    }

    /// Does this rule match the query domain (the domain itself or a subdomain)?
    pub fn matches(&self, query_domain: &str) -> (b: bool)
        ensures
            b == domain_matches(self@.domain, query_domain@),
    {
        let d = chars_of(self.domain.as_str());
        let q = chars_of(query_domain);
        domain_matches_exec(d.as_slice(), q.as_slice())
    }

    /// A copy of this rule.
    pub fn duplicate(&self) -> (r: Self)
        ensures
            r@ == self@,
    {
        Rule {
            domain: self.domain.clone(),
            source: opt_to_string(opt_as_str(&self.source)),
            category: opt_to_string(opt_as_str(&self.category)),
        }
    }

    /// Moves the parts of this rule out.
    pub fn into_parts(self) -> (r: (String, Option<String>, Option<String>))
        ensures
            r.0@ == self@.domain,
            opt_string_view(r.1) == self@.source,
            opt_string_view(r.2) == self@.category,
    {
        (self.domain, self.source, self.category)
    }
}

/// No two rules share a domain.
pub open spec fn distinct_domains(rules: Seq<RuleView>) -> bool {
    forall|i: int, j: int|
        0 <= i < rules.len() && 0 <= j < rules.len() && i != j ==> #[trigger] rules[i].domain
            != #[trigger] rules[j].domain
}

/// Some rule has the domain `d`.
pub open spec fn has_domain(rules: Seq<RuleView>, d: Seq<char>) -> bool {
    exists|i: int| 0 <= i < rules.len() && #[trigger] rules[i].domain == d
}

/// The rules whose domain differs from `d`, in their order.
pub open spec fn without_domain(rules: Seq<RuleView>, d: Seq<char>) -> Seq<RuleView>
    decreases rules.len(),
{
    if rules.len() == 0 {
        rules
    } else {
        let rest = without_domain(rules.drop_last(), d);
        if rules.last().domain != d {
            rest.push(rules.last())
        } else {
            rest
        }
    }
}

/// Index of the first rule at or after `i` that matches `q`.
pub open spec fn first_match_from(rules: Seq<RuleView>, q: Seq<char>, i: int) -> Option<int>
    decreases rules.len() - i,
{
    if i < 0 || i >= rules.len() {
        None
    } else if domain_matches(rules[i].domain, q) {
        Some(i)
    } else {
        first_match_from(rules, q, i + 1)
    }
}

/// Index of the first rule that matches `q`.
pub open spec fn first_match(rules: Seq<RuleView>, q: Seq<char>) -> Option<int> {
    first_match_from(rules, q, 0)
}

/// An ordered set of rules in which no two rules share a domain.
#[derive(Debug, Clone)]
pub struct RuleSet {
    rules: Vec<Rule>,
}

impl View for RuleSet {
    type V = Seq<RuleView>;

    closed spec fn view(&self) -> Seq<RuleView> {
        self.rules@.map_values(|r: Rule| r@)
    }
}

impl RuleSet {
    /// No two rules of the set share a domain.
    pub open spec fn wf(&self) -> bool {
        distinct_domains(self@)
    }

    /// An empty set.
    pub fn new() -> (s: Self)
        ensures
            s@ == Seq::<RuleView>::empty(),
            s.wf(),
    {
        let s = RuleSet { rules: Vec::new() };
        assert(s@ =~= Seq::<RuleView>::empty());
        s
    }

    /// Does some rule of the set have the domain `d`?
    fn has_domain_exec(&self, d: &String) -> (b: bool)
        ensures
            b == has_domain(self@, d@),
    {
        let mut i: usize = 0;
        while i < self.rules.len()
            invariant
                i <= self.rules@.len(),
                self@.len() == self.rules@.len(),
                forall|m: int| 0 <= m < self.rules@.len() ==> self@[m] == #[trigger] self.rules@[m]@,
                forall|m: int| 0 <= m < i ==> #[trigger] self@[m].domain != d@,
            decreases self.rules.len() - i,
        {
            let rule = &self.rules[i];
            if rule.domain == *d {
                assert(self@[i as int].domain == d@);
                return true;
            }
            i = i + 1;
        }
        false
    }

    /// Adds a rule unless a rule with the same domain is already there.
    /// Returns whether the rule was added.
    pub fn add(&mut self, rule: Rule) -> (added: bool)
        ensures
            added == !has_domain(old(self)@, rule@.domain),
            final(self)@ == if added {
                old(self)@.push(rule@)
            } else {
                old(self)@
            },
            old(self).wf() ==> final(self).wf(),
    {
        if self.has_domain_exec(&rule.domain) {
            return false;
        }
        let ghost before = self@;
        let ghost r = rule@;
        self.rules.push(rule);
        assert(self@ =~= before.push(r));
        true
    }

    /// Removes every rule whose domain is the normalised `raw_domain`.
    /// Returns whether a rule was removed.
    pub fn remove(&mut self, raw_domain: &str) -> (r: Result<bool, BlockerError>)
        ensures
            match normalize(raw_domain@) {
                Ok(d) => {
                    &&& final(self)@ == without_domain(old(self)@, d)
                    &&& r == Ok::<bool, BlockerError>(final(self)@.len() != old(self)@.len())
                },
                Err(e) => {
                    &&& final(self)@ == old(self)@
                    &&& r is Err
                    &&& r->Err_0@ == e
                },
            },
            old(self).wf() ==> final(self).wf(),
    {
        let v = chars_of(raw_domain);
        assert(v@.subrange(0, v@.len() as int) =~= v@);
        let d = match normalize_range(v.as_slice(), 0, v.len()) {
            Ok(d) => d,
            Err(e) => return Err(e),
        };
        let ds = string_from_chars(d.as_slice());
        let ghost before = self@;
        let before_len = self.rules.len();
        let mut old_rules: Vec<Rule> = Vec::new();
        std::mem::swap(&mut old_rules, &mut self.rules);
        let ghost old_seq = old_rules@;
        assert(before == old_seq.map_values(|r: Rule| r@));
        for rule in it: old_rules.into_iter()
            invariant
                it.seq() == old_seq,
                self@ == without_domain(before.take(it.index() as int), d@),
                ds@ == d@,
                before.len() == old_seq.len(),
                forall|m: int| 0 <= m < old_seq.len() ==> before[m] == #[trigger] old_seq[m]@,
        {
            let ghost k = it.index() as int;
            assert(before.take(k + 1).drop_last() =~= before.take(k));
            if !(rule.domain == ds) {
                let ghost prev = self@;
                let ghost rv = rule@;
                self.rules.push(rule);
                assert(self@ =~= prev.push(rv));
            }
        }
        assert(before.take(before.len() as int) =~= before);
        proof {
            if distinct_domains(before) {
                lemma_without_domain_distinct(before, d@);
            }
        }
        Ok(self.rules.len() != before_len)
    }

    /// The first rule that matches a canonical domain (given as characters).
    pub fn find_match_chars(&self, q: &[char]) -> (r: Option<&Rule>)
        ensures
            match first_match(self@, q@) {
                Some(i) => r is Some && r->Some_0@ == self@[i],
                None => r is None,
            },
    {
        let mut i: usize = 0;
        while i < self.rules.len()
            invariant
                i <= self.rules@.len(),
                self@.len() == self.rules@.len(),
                forall|m: int| 0 <= m < self.rules@.len() ==> self@[m] == #[trigger] self.rules@[m]@,
                first_match(self@, q@) == first_match_from(self@, q@, i as int),
            decreases self.rules.len() - i,
        {
            let rule = &self.rules[i];
            let dc = chars_of(rule.domain.as_str());
            if domain_matches_exec(dc.as_slice(), q) {
                return Some(rule);
            }
            i = i + 1;
        }
        None
    }

    /// The first rule that matches the normalised `raw_domain`.
    pub fn find_match(&self, raw_domain: &str) -> (r: Result<Option<&Rule>, BlockerError>)
        ensures
            match normalize(raw_domain@) {
                Ok(d) => r is Ok && match first_match(self@, d) {
                    Some(i) => r->Ok_0 is Some && r->Ok_0->Some_0@ == self@[i],
                    None => r->Ok_0 is None,
                },
                Err(e) => r is Err && r->Err_0@ == e,
            },
    {
        let v = chars_of(raw_domain);
        assert(v@.subrange(0, v@.len() as int) =~= v@);
        match normalize_range(v.as_slice(), 0, v.len()) {
            Ok(d) => Ok(self.find_match_chars(d.as_slice())),
            Err(e) => Err(e),
        }
    }

    /// Number of rules.
    pub fn len(&self) -> (n: usize)
        ensures
            n == self@.len(),
    {
        self.rules.len()
    }

    /// Whether the set holds no rule.
    pub fn is_empty(&self) -> (b: bool)
        ensures
            b == (self@.len() == 0),
    {
        self.rules.len() == 0
    }

    /// The rule at position `i`.
    pub fn get(&self, i: usize) -> (r: &Rule)
        requires
            i < self@.len(),
        ensures
            r@ == self@[i as int],
    {
        &self.rules[i]
    }

    /// Iterates over the rules, in order.
    pub fn iter(&self) -> (it: std::slice::Iter<'_, Rule>)
        ensures
            vstd::std_specs::iter::IteratorSpec::remaining(&it).len() == self@.len(),
            forall|i: int|
                0 <= i < self@.len() ==> (
                #[trigger] vstd::std_specs::iter::IteratorSpec::remaining(&it)[i])@ == self@[i],
    {
        broadcast use vstd::std_specs::slice::axiom_spec_slice_iter;

        self.rules.as_slice().iter()
    }

    /// A copy of this set.
    pub fn duplicate(&self) -> (r: Self)
        ensures
            r@ == self@,
    {
        let mut rules: Vec<Rule> = Vec::new();
        let mut i: usize = 0;
        while i < self.rules.len()
            invariant
                i <= self.rules@.len(),
                rules@.map_values(|r: Rule| r@) == self.rules@.map_values(|r: Rule| r@).take(
                    i as int,
                ),
            decreases self.rules.len() - i,
        {
            let ghost before = rules@.map_values(|r: Rule| r@);
            let r = self.rules[i].duplicate();
            let ghost rv = r@;
            rules.push(r);
            assert(rules@.map_values(|r: Rule| r@) =~= before.push(rv));
            i = i + 1;
            assert(rules@.map_values(|r: Rule| r@) =~= self.rules@.map_values(|r: Rule| r@).take(
                i as int,
            ));
        }
        let s = RuleSet { rules };
        assert(s@ =~= self@);
        s
    }

    /// Moves the rules out, in order.
    pub fn into_rules(self) -> (v: Vec<Rule>)
        ensures
            v@.map_values(|r: Rule| r@) == self@,
    {
        self.rules
    }
}

proof fn lemma_without_domain_distinct(rules: Seq<RuleView>, d: Seq<char>)
    requires
        distinct_domains(rules),
    ensures
        distinct_domains(without_domain(rules, d)),
        forall|x: RuleView| without_domain(rules, d).contains(x) ==> rules.contains(x),
    decreases rules.len(),
{
    if rules.len() > 0 {
        let init = rules.drop_last();
        assert(distinct_domains(init)) by {
            assert forall|i: int, j: int|
                0 <= i < init.len() && 0 <= j < init.len() && i != j implies #[trigger] init[i].domain
                != #[trigger] init[j].domain by {
                assert(init[i] == rules[i]);
                assert(init[j] == rules[j]);
            }
        }
        lemma_without_domain_distinct(init, d);
        let rest = without_domain(init, d);
        if rules.last().domain != d {
            let w = rest.push(rules.last());
            assert forall|x: RuleView| w.contains(x) implies rules.contains(x) by {
                if x == rules.last() {
                    assert(rules[rules.len() - 1] == x);
                } else {
                    let k = choose|k: int| 0 <= k < w.len() && w[k] == x;
                    assert(rest.contains(x));
                    assert(init.contains(x));
                    let k2 = choose|k2: int| 0 <= k2 < init.len() && init[k2] == x;
                    assert(rules[k2] == x);
                }
            }
            assert forall|i: int, j: int|
                0 <= i < w.len() && 0 <= j < w.len() && i != j implies #[trigger] w[i].domain
                != #[trigger] w[j].domain by {
                if i == w.len() - 1 || j == w.len() - 1 {
                    let o = if i == w.len() - 1 { j } else { i };
                    assert(rest.contains(w[o]));
                    assert(init.contains(w[o]));
                    let k2 = choose|k2: int| 0 <= k2 < init.len() && init[k2] == w[o];
                    assert(rules[k2] == w[o]);
                    assert(rules[rules.len() - 1] == rules.last());
                }
            }
        } else {
            assert forall|x: RuleView| rest.contains(x) implies rules.contains(x) by {
                assert(init.contains(x));
                let k2 = choose|k2: int| 0 <= k2 < init.len() && init[k2] == x;
                assert(rules[k2] == x);
            }
        }
    }
}

} // verus!
