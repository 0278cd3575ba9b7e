//! Properties of the blocker that span several operations: how the two lists
//! decide together, what adding and removing rules does, what loading a list
//! reports, and what the protection setting reads back.
use vstd::prelude::*;

use crate::domain::normalize;
use crate::engine::{add_all, added, check, decide, engine_report, lemma_add_all, DecisionView};
use crate::loader::{
    after_first_word, first_word, hosts_domain, load_line, load_lines, load_text, lines, localhost,
    parse_line, redirect_address_word, report_total, LoadView, ParsedLineView,
};
use crate::error::BlockerErrorView;
use crate::rule::{
    distinct_domains, domain_matches, first_match, first_match_from, has_domain, new_rule,
    strip_wildcard, without_domain, RuleView,
};
use crate::store::protection_enabled;
use crate::text::{bool_text, eq_ignore_ascii_case, lemma_trim_idempotent, starts_with, trim};

verus! {

// ---------------------------------------------------------------------------
// Matching
// ---------------------------------------------------------------------------

/// Some rule at or after `i` matches `q` when the rule at `k` does.
proof fn lemma_first_match_some(rules: Seq<RuleView>, q: Seq<char>, i: int, k: int)
    requires
        0 <= i <= k < rules.len(),
        domain_matches(rules[k].domain, q),
    ensures
        first_match_from(rules, q, i) is Some,
    decreases k - i,
{
    if !domain_matches(rules[i].domain, q) {
        lemma_first_match_some(rules, q, i + 1, k);
    }
}

/// No rule at or after `i` matches `q` when none of them covers it.
proof fn lemma_first_match_none(rules: Seq<RuleView>, q: Seq<char>, i: int)
    requires
        0 <= i,
        forall|k: int| i <= k < rules.len() ==> !domain_matches(#[trigger] rules[k].domain, q),
    ensures
        first_match_from(rules, q, i) is None,
    decreases rules.len() - i,
{
    if i < rules.len() {
        lemma_first_match_none(rules, q, i + 1);
    }
}

/// After adding a rule, some rule of the list has its domain.
proof fn lemma_added_has_domain(rules: Seq<RuleView>, rule: RuleView)
    ensures
        has_domain(added(rules, rule), rule.domain),
{
    if !has_domain(rules, rule.domain) {
        let w = rules.push(rule);
        assert(w[rules.len() as int].domain == rule.domain);
    }
}

/// After adding a rule, a domain that the rule covers is matched by the list.
proof fn lemma_added_matches(rules: Seq<RuleView>, rule: RuleView, q: Seq<char>)
    requires
        domain_matches(rule.domain, q),
    ensures
        first_match(added(rules, rule), q) is Some,
{
    lemma_added_has_domain(rules, rule);
    let w = added(rules, rule);
    let k = choose|k: int| 0 <= k < w.len() && #[trigger] w[k].domain == rule.domain;
    lemma_first_match_some(w, q, 0, k);
}

/// A rule covers its own domain and every name below it: `label.domain`
/// for any label.
pub proof fn law_rule_covers_subdomains(domain: Seq<char>, label: Seq<char>)
    ensures
        domain_matches(domain, domain),
        domain_matches(domain, label + seq!['.'] + domain),
{
    let q = label + seq!['.'] + domain;
    assert(q.skip(q.len() - domain.len()) =~= domain);
    assert(q[q.len() - domain.len() - 1] == '.');
}

// ---------------------------------------------------------------------------
// Deciding
// ---------------------------------------------------------------------------

/// The allowlist overrides the blocklist: once an allow rule that covers a
/// domain is added, checking that domain answers `Allowed`, whatever the
/// blocklist holds.
pub proof fn law_allowlist_overrides_blocklist(
    blocklist: Seq<RuleView>,
    allowlist: Seq<RuleView>,
    rule: RuleView,
    raw: Seq<char>,
)
    requires
        normalize(raw) is Ok,
        domain_matches(rule.domain, normalize(raw)->Ok_0),
    ensures
        check(blocklist, added(allowlist, rule), raw) matches Ok(DecisionView::Allowed { .. }),
{
    lemma_added_matches(allowlist, rule, normalize(raw)->Ok_0);
}

/// A block rule blocks its domain and every subdomain, unless an allow rule
/// covers the queried name.
pub proof fn law_block_rule_blocks_covered_domains(
    blocklist: Seq<RuleView>,
    allowlist: Seq<RuleView>,
    rule: RuleView,
    raw: Seq<char>,
)
    requires
        normalize(raw) is Ok,
        domain_matches(rule.domain, normalize(raw)->Ok_0),
        forall|k: int|
            0 <= k < allowlist.len() ==> !domain_matches(
                #[trigger] allowlist[k].domain,
                normalize(raw)->Ok_0,
            ),
    ensures
        check(added(blocklist, rule), allowlist, raw) matches Ok(DecisionView::Blocked { .. }),
{
    lemma_first_match_none(allowlist, normalize(raw)->Ok_0, 0);
    lemma_added_matches(blocklist, rule, normalize(raw)->Ok_0);
}

/// A valid domain that no rule covers is allowed by default; so is every
/// valid domain for an engine without rules.
pub proof fn law_uncovered_domain_allowed_by_default(
    blocklist: Seq<RuleView>,
    allowlist: Seq<RuleView>,
    raw: Seq<char>,
)
    requires
        normalize(raw) is Ok,
        forall|k: int|
            0 <= k < blocklist.len() ==> !domain_matches(
                #[trigger] blocklist[k].domain,
                normalize(raw)->Ok_0,
            ),
        forall|k: int|
            0 <= k < allowlist.len() ==> !domain_matches(
                #[trigger] allowlist[k].domain,
                normalize(raw)->Ok_0,
            ),
    ensures
        check(blocklist, allowlist, raw) == Ok::<DecisionView, crate::error::BlockerErrorView>(
            DecisionView::AllowedByDefault,
        ),
        check(Seq::empty(), Seq::empty(), raw) == Ok::<
            DecisionView,
            crate::error::BlockerErrorView,
        >(DecisionView::AllowedByDefault),
{
    lemma_first_match_none(blocklist, normalize(raw)->Ok_0, 0);
    lemma_first_match_none(allowlist, normalize(raw)->Ok_0, 0);
}

// ---------------------------------------------------------------------------
// Adding and removing rules
// ---------------------------------------------------------------------------

/// A rule whose domain is already listed is ignored: adding it again leaves
/// the list as the first addition left it.
pub proof fn law_duplicate_rule_ignored(rules: Seq<RuleView>, rule: RuleView, again: RuleView)
    requires
        again.domain == rule.domain,
    ensures
        added(added(rules, rule), again) == added(rules, rule),
{
    lemma_added_has_domain(rules, rule);
}

/// Adding rules keeps a list free of duplicate domains.
pub proof fn law_added_keeps_domains_distinct(rules: Seq<RuleView>, rule: RuleView)
    requires
        distinct_domains(rules),
    ensures
        distinct_domains(added(rules, rule)),
{
    if !has_domain(rules, rule.domain) {
        let w = rules.push(rule);
        assert forall|i: int, j: int|
            0 <= i < w.len() && 0 <= j < w.len() && i != j implies #[trigger] w[i].domain
            != #[trigger] w[j].domain by {
            if i == rules.len() {
                assert(rules[j].domain != rule.domain);
            } else if j == rules.len() {
                assert(rules[i].domain != rule.domain);
            }
        }
    }
}

/// Removing a domain that no rule has leaves the list as it was.
proof fn lemma_without_absent(rules: Seq<RuleView>, d: Seq<char>)
    requires
        !has_domain(rules, d),
    ensures
        without_domain(rules, d) == rules,
    decreases rules.len(),
{
    if rules.len() > 0 {
        let init = rules.drop_last();
        assert(!has_domain(init, d)) by {
            if has_domain(init, d) {
                let k = choose|k: int| 0 <= k < init.len() && #[trigger] init[k].domain == d;
                assert(rules[k].domain == d);
            }
        }
        assert(rules.last().domain != d) by {
            assert(rules[rules.len() - 1].domain == rules.last().domain);
        }
        lemma_without_absent(init, d);
        assert(init.push(rules.last()) =~= rules);
    }
}

/// Removing a domain undoes adding a rule for it, when the list had no rule
/// for that domain before.
pub proof fn law_remove_undoes_add(rules: Seq<RuleView>, rule: RuleView)
    requires
        !has_domain(rules, rule.domain),
    ensures
        without_domain(added(rules, rule), rule.domain) == rules,
{
    let w = rules.push(rule);
    assert(w.drop_last() =~= rules);
    lemma_without_absent(rules, rule.domain);
}

/// A rule built from a text without a leading `*.` wildcard has the domain
/// that normalising the text gives.
pub proof fn law_rule_domain_is_normalized_text(
    text: Seq<char>,
    source: Option<Seq<char>>,
    category: Option<Seq<char>>,
)
    requires
        normalize(text) is Ok,
        !starts_with(trim(text), seq!['*', '.']),
    ensures
        new_rule(text, source, category) == Ok::<RuleView, BlockerErrorView>(
            RuleView { domain: normalize(text)->Ok_0, source, category },
        ),
{
    lemma_trim_idempotent(text);
    assert(strip_wildcard(text) == trim(text));
    assert(normalize(trim(text)) == normalize(text));
}

/// Removing an allowed domain undoes allowing it, at the level of the
/// engine's operations: for a text without a leading `*.` wildcard whose
/// domain the allowlist did not hold, `add_allow_rule(text)` followed by
/// `remove_allow_rule(text)` gives the allowlist back and reports a removal
/// (the lists grew by one, then shrank), and a second removal changes
/// nothing and reports none.
pub proof fn law_remove_allow_rule_undoes_add_allow_rule(
    allowlist: Seq<RuleView>,
    text: Seq<char>,
    source: Option<Seq<char>>,
    category: Option<Seq<char>>,
)
    requires
        normalize(text) is Ok,
        !starts_with(trim(text), seq!['*', '.']),
        !has_domain(allowlist, normalize(text)->Ok_0),
    ensures
        new_rule(text, source, category) is Ok,
        ({
            let d = normalize(text)->Ok_0;
            let after_add = added(allowlist, new_rule(text, source, category)->Ok_0);
            &&& after_add.len() == allowlist.len() + 1
            &&& without_domain(after_add, d) == allowlist
            &&& without_domain(after_add, d).len() != after_add.len()
            &&& without_domain(allowlist, d) == allowlist
        }),
{
    law_rule_domain_is_normalized_text(text, source, category);
    let rv = new_rule(text, source, category)->Ok_0;
    law_remove_undoes_add(allowlist, rv);
    lemma_without_absent(allowlist, rv.domain);
}

/// After a removal, no rule of the list has the removed domain.
pub proof fn law_removed_domain_is_gone(rules: Seq<RuleView>, d: Seq<char>)
    ensures
        !has_domain(without_domain(rules, d), d),
    decreases rules.len(),
{
    if rules.len() > 0 {
        law_removed_domain_is_gone(rules.drop_last(), d);
        let rest = without_domain(rules.drop_last(), d);
        if rules.last().domain != d {
            let w = rest.push(rules.last());
            assert(!has_domain(w, d)) by {
                if has_domain(w, d) {
                    let k = choose|k: int| 0 <= k < w.len() && #[trigger] w[k].domain == d;
                    if k < rest.len() {
                        assert(rest[k].domain == d);
                    }
                }
            }
        }
    }
}

// ---------------------------------------------------------------------------
// Loading
// ---------------------------------------------------------------------------

/// What loading lines reports matches what it keeps: the added counts are
/// the lengths of the two lists, and each line is counted at most once.
proof fn lemma_load_lines_counts(
    ls: Seq<Seq<char>>,
    source: Option<Seq<char>>,
    category: Option<Seq<char>>,
)
    ensures
        load_lines(ls, source, category).report.added_block_rules == load_lines(
            ls,
            source,
            category,
        ).blocklist.len(),
        load_lines(ls, source, category).report.added_allow_rules == load_lines(
            ls,
            source,
            category,
        ).allowlist.len(),
        report_total(load_lines(ls, source, category).report) <= ls.len(),
    decreases ls.len(),
{
    if ls.len() > 0 {
        lemma_load_lines_counts(ls.drop_last(), source, category);
    }
}

/// A load's report counts exactly the rules in its two lists, and accounts
/// for each line of the text at most once (a line that repeats a listed
/// domain is counted nowhere).
pub proof fn law_load_report_counts_rules(
    text: Seq<char>,
    source: Option<Seq<char>>,
    category: Option<Seq<char>>,
)
    ensures
        load_text(text, source, category).report.added_block_rules == load_text(
            text,
            source,
            category,
        ).blocklist.len(),
        load_text(text, source, category).report.added_allow_rules == load_text(
            text,
            source,
            category,
        ).allowlist.len(),
        report_total(load_text(text, source, category).report) <= lines(text).len(),
{
    lemma_load_lines_counts(lines(text), source, category);
}

/// What loading lines keeps of each line: every rule carries the given
/// source and category, no list holds two rules with one domain, and every
/// issue names the line it was made for, by a number that grows from issue to
/// issue.
pub open spec fn load_keeps_lines(
    st: LoadView,
    ls: Seq<Seq<char>>,
    source: Option<Seq<char>>,
    category: Option<Seq<char>>,
) -> bool {
    &&& forall|k: int|
        0 <= k < st.blocklist.len() ==> (#[trigger] st.blocklist[k]).source == source
            && st.blocklist[k].category == category
    &&& forall|k: int|
        0 <= k < st.allowlist.len() ==> (#[trigger] st.allowlist[k]).source == source
            && st.allowlist[k].category == category
    &&& distinct_domains(st.blocklist)
    &&& distinct_domains(st.allowlist)
    &&& forall|k: int|
        0 <= k < st.report.skipped_rules.len() ==> {
            let issue = #[trigger] st.report.skipped_rules[k];
            &&& 1 <= issue.line_number <= ls.len()
            &&& issue.line == ls[issue.line_number - 1]
        }
    &&& forall|j: int, k: int|
        0 <= j < k < st.report.skipped_rules.len() ==> (
        #[trigger] st.report.skipped_rules[j]).line_number
            < (#[trigger] st.report.skipped_rules[k]).line_number
}

proof fn lemma_load_lines_keeps(
    ls: Seq<Seq<char>>,
    source: Option<Seq<char>>,
    category: Option<Seq<char>>,
)
    ensures
        load_keeps_lines(load_lines(ls, source, category), ls, source, category),
    decreases ls.len(),
{
    if ls.len() > 0 {
        let init = ls.drop_last();
        lemma_load_lines_keeps(init, source, category);
        let st = load_lines(init, source, category);
        let n = ls.len() as nat;
        let next = load_lines(ls, source, category);
        assert(next == load_line(st, n, ls.last(), source, category));
        assert forall|k: int| 0 <= k < init.len() implies #[trigger] init[k] == ls[k] by {}
        if let ParsedLineView::Rule { domain, is_allow_rule } = parse_line(ls.last()) {
            if let Ok(rv) = new_rule(domain, source, category) {
                law_added_keeps_domains_distinct(st.allowlist, rv);
                law_added_keeps_domains_distinct(st.blocklist, rv);
            }
        }
        let old_issues = st.report.skipped_rules;
        let issues = next.report.skipped_rules;
        assert forall|k: int| 0 <= k < issues.len() implies {
            let issue = #[trigger] issues[k];
            &&& 1 <= issue.line_number <= ls.len()
            &&& issue.line == ls[issue.line_number - 1]
        } by {
            if k < old_issues.len() {
                assert(issues[k] == old_issues[k]);
                assert(init[old_issues[k].line_number - 1] == ls[old_issues[k].line_number - 1]);
            }
        }
        assert forall|j: int, k: int| 0 <= j < k < issues.len() implies (
        #[trigger] issues[j]).line_number < (#[trigger] issues[k]).line_number by {
            if k < old_issues.len() {
                assert(issues[j] == old_issues[j] && issues[k] == old_issues[k]);
            } else {
                assert(issues[j] == old_issues[j]);
            }
        }
    }
}

/// A load keeps every line it read: every rule carries the given source and
/// category, no list holds two rules with one domain, and each issue names
/// its line by its 1-based number in the text, numbers growing from issue to
/// issue.
pub proof fn law_load_keeps_lines(
    text: Seq<char>,
    source: Option<Seq<char>>,
    category: Option<Seq<char>>,
)
    ensures
        load_keeps_lines(load_text(text, source, category), lines(text), source, category),
{
    lemma_load_lines_keeps(lines(text), source, category);
}

/// Loading a text into an engine grows each list by exactly the count that
/// the report gives for it.
pub proof fn law_engine_load_grows_lists_by_report(
    blocklist: Seq<RuleView>,
    allowlist: Seq<RuleView>,
    text: Seq<char>,
    source: Option<Seq<char>>,
    category: Option<Seq<char>>,
)
    ensures
        ({
            let loaded = load_text(text, source, category);
            let (b, nb) = add_all(blocklist, loaded.blocklist);
            let (a, na) = add_all(allowlist, loaded.allowlist);
            let report = engine_report(loaded, nb, na);
            &&& b.len() == blocklist.len() + report.added_block_rules
            &&& a.len() == allowlist.len() + report.added_allow_rules
            &&& report.added_block_rules <= loaded.blocklist.len()
            &&& report.added_allow_rules <= loaded.allowlist.len()
        }),
{
    let loaded = load_text(text, source, category);
    lemma_add_all(blocklist, loaded.blocklist);
    lemma_add_all(allowlist, loaded.allowlist);
}

// ---------------------------------------------------------------------------
// Settings
// ---------------------------------------------------------------------------

/// The protection setting reads back what was stored, and protection is on
/// while nothing is stored.
pub proof fn law_protection_setting_reads_back(enabled: bool)
    ensures
        protection_enabled(Some(bool_text(enabled))) == enabled,
        protection_enabled(None),
{
    reveal_strlit("true");
    reveal_strlit("false");
    if enabled {
        assert(bool_text(enabled)[0] == 't');
        assert(bool_text(enabled) != "false"@);
    }
}


// ---------------------------------------------------------------------------
// What a rule covers
// ---------------------------------------------------------------------------

/// A rule covers exactly its own domain and the names below it: a name `q`
/// matches the rule for `domain` if and only if `q` is `domain`, or `q` is
/// some label, a dot and `domain`.
pub proof fn law_rule_covers_exactly_its_subtree(domain: Seq<char>, q: Seq<char>)
    ensures
        domain_matches(domain, q) <==> (q == domain || exists|label: Seq<char>|
            q == label + seq!['.'] + domain),
{
    if domain_matches(domain, q) && q != domain {
        let label = q.take(q.len() - domain.len() - 1);
        assert(q =~= label + seq!['.'] + domain) by {
            assert forall|k: int| 0 <= k < q.len() implies q[k] == (label + seq!['.']
                + domain)[k] by {
                if k >= q.len() - domain.len() {
                    assert(q[k] == q.skip(q.len() - domain.len())[k - (q.len() - domain.len())]);
                }
            }
        }
    }
    if exists|label: Seq<char>| q == label + seq!['.'] + domain {
        let label = choose|label: Seq<char>| q == label + seq!['.'] + domain;
        law_rule_covers_subdomains(domain, label);
    }
}

// ---------------------------------------------------------------------------
// What a decision reports
// ---------------------------------------------------------------------------

/// What a decision reports about the rule behind it. A `Blocked` answer
/// names the queried domain and the first blocklist rule that covers it,
/// with that rule's domain, source and category, and no allow rule covers
/// the domain. An `Allowed` answer names the first allowlist rule that
/// covers the domain, with its domain and source. `AllowedByDefault` means
/// that no rule of either list covers it.
pub proof fn law_decision_names_the_covering_rule(
    blocklist: Seq<RuleView>,
    allowlist: Seq<RuleView>,
    d: Seq<char>,
)
    ensures
        decide(blocklist, allowlist, d) matches DecisionView::Blocked {
            domain,
            matched_rule,
            source,
            category,
        } ==> {
            &&& domain == d
            &&& exists|i: int|
                0 <= i < blocklist.len() && #[trigger] blocklist[i].domain == matched_rule
                    && blocklist[i].source == source && blocklist[i].category == category
                    && domain_matches(matched_rule, d) && forall|j: int|
                    0 <= j < i ==> !domain_matches(#[trigger] blocklist[j].domain, d)
            &&& forall|j: int| 0 <= j < allowlist.len() ==> !domain_matches(#[trigger] allowlist[j].domain, d)
        },
        decide(blocklist, allowlist, d) matches DecisionView::Allowed {
            domain,
            matched_rule,
            source,
        } ==> {
            &&& domain == d
            &&& exists|i: int|
                0 <= i < allowlist.len() && #[trigger] allowlist[i].domain == matched_rule
                    && allowlist[i].source == source && domain_matches(matched_rule, d)
                    && forall|j: int|
                    0 <= j < i ==> !domain_matches(#[trigger] allowlist[j].domain, d)
        },
        decide(blocklist, allowlist, d) is AllowedByDefault ==> {
            &&& forall|j: int| 0 <= j < blocklist.len() ==> !domain_matches(#[trigger] blocklist[j].domain, d)
            &&& forall|j: int| 0 <= j < allowlist.len() ==> !domain_matches(#[trigger] allowlist[j].domain, d)
        },
{
    lemma_first_match_from_facts(blocklist, d, 0);
    lemma_first_match_from_facts(allowlist, d, 0);
}

/// The first match from `i` on is the first covering rule at or after `i`,
/// and none means no rule from `i` on covers `q`.
proof fn lemma_first_match_from_facts(rules: Seq<RuleView>, q: Seq<char>, i: int)
    requires
        0 <= i,
    ensures
        first_match_from(rules, q, i) matches Some(k) ==> i <= k < rules.len() && domain_matches(
            rules[k].domain,
            q,
        ) && forall|j: int| i <= j < k ==> !domain_matches(#[trigger] rules[j].domain, q),
        first_match_from(rules, q, i) is None ==> forall|j: int|
            i <= j < rules.len() ==> !domain_matches(#[trigger] rules[j].domain, q),
    decreases rules.len() - i,
{
    if i < rules.len() && !domain_matches(rules[i].domain, q) {
        lemma_first_match_from_facts(rules, q, i + 1);
    }
}

// ---------------------------------------------------------------------------
// Hosts-file lines
// ---------------------------------------------------------------------------

/// A hosts-file line gives a domain exactly when its first word is a
/// redirect address and it has a second word that is not `localhost` in
/// any case; the domain is then that second word. So a line that points
/// `localhost` anywhere never gives a rule for it.
pub proof fn law_hosts_line_skips_localhost(c: Seq<char>)
    ensures
        hosts_domain(c) is Some <==> (first_word(c) matches Some(w1) && first_word(
            after_first_word(c),
        ) matches Some(w2) && redirect_address_word(w1) && !eq_ignore_ascii_case(
            w2,
            "localhost"@,
        )),
        hosts_domain(c) matches Some(x) ==> first_word(after_first_word(c)) == Some(x)
            && !eq_ignore_ascii_case(x, "localhost"@),
        first_word(after_first_word(c)) matches Some(w2) && eq_ignore_ascii_case(
            w2,
            "localhost"@,
        ) ==> hosts_domain(c) is None,
{
    reveal_strlit("localhost");
    assert(localhost() =~= "localhost"@);
}

} // verus!
