//! The blocking engine: a blocklist and an allowlist, and the decision for a
//! query domain.
use vstd::prelude::*;

use crate::domain::{law_normalize_idempotent, normalize, normalize_domain, result_view};
use crate::error::{BlockerError, BlockerErrorView};
use crate::event::{BlockAction, BlockEvent};
use crate::loader::{load_text, LoadView, ReportView, RuleLoadReport};
use crate::rule::{
    first_match, has_domain, new_rule, opt_str_view, opt_string_view, opt_to_string, Rule,
    RuleSet, RuleView,
};

verus! {

/// What the engine decided for a domain.
#[derive(Debug, Clone, PartialEq, Eq)]
pub enum BlockDecision {
    Blocked {
        domain: String,
        matched_rule: String,
        source: Option<String>,
        category: Option<String>,
    },
    Allowed { domain: String, matched_rule: String, source: Option<String> },
    AllowedByDefault,
}

/// A decision, with its strings taken as character sequences.
pub enum DecisionView {
    Blocked {
        domain: Seq<char>,
        matched_rule: Seq<char>,
        source: Option<Seq<char>>,
        category: Option<Seq<char>>,
    },
    Allowed { domain: Seq<char>, matched_rule: Seq<char>, source: Option<Seq<char>> },
    AllowedByDefault,
}

impl View for BlockDecision {
    type V = DecisionView;

    open spec fn view(&self) -> DecisionView {
        match self {
            BlockDecision::Blocked { domain, matched_rule, source, category } => DecisionView::Blocked {
                domain: domain@,
                matched_rule: matched_rule@,
                source: opt_string_view(*source),
                category: opt_string_view(*category),
            },
            BlockDecision::Allowed { domain, matched_rule, source } => DecisionView::Allowed {
                domain: domain@,
                matched_rule: matched_rule@,
                source: opt_string_view(*source),
            },
            BlockDecision::AllowedByDefault => DecisionView::AllowedByDefault,
        }
    }
}

/// The decision for a canonical domain `d`: the first matching allow rule
/// wins; else the first matching block rule; else the domain is allowed by
/// default.
pub open spec fn decide(
    blocklist: Seq<RuleView>,
    allowlist: Seq<RuleView>,
    d: Seq<char>,
) -> DecisionView {
    match first_match(allowlist, d) {
        Some(i) => DecisionView::Allowed {
            domain: d,
            matched_rule: allowlist[i].domain,
            source: allowlist[i].source,
        },
        None => match first_match(blocklist, d) {
            Some(i) => DecisionView::Blocked {
                domain: d,
                matched_rule: blocklist[i].domain,
                source: blocklist[i].source,
                category: blocklist[i].category,
            },
            None => DecisionView::AllowedByDefault,
        },
    }
}

/// The outcome of checking a raw domain.
pub open spec fn check(
    blocklist: Seq<RuleView>,
    allowlist: Seq<RuleView>,
    raw: Seq<char>,
) -> Result<DecisionView, BlockerErrorView> {
    match normalize(raw) {
        Ok(d) => Ok(decide(blocklist, allowlist, d)),
        Err(e) => Err(e),
    }
}

/// The action that an event records for a decision.
pub open spec fn action_of(d: DecisionView) -> BlockAction {
    match d {
        DecisionView::Blocked { .. } => BlockAction::Blocked,
        DecisionView::Allowed { .. } => BlockAction::AllowedByUserRule,
        DecisionView::AllowedByDefault => BlockAction::AllowedByDefault,
    }
}

/// The matched rule that an event records for a decision.
pub open spec fn matched_rule_of(d: DecisionView) -> Option<Seq<char>> {
    match d {
        DecisionView::Blocked { matched_rule, .. } => Some(matched_rule),
        DecisionView::Allowed { matched_rule, .. } => Some(matched_rule),
        DecisionView::AllowedByDefault => None,
    }
}

/// The rule source that an event records for a decision.
pub open spec fn source_of(d: DecisionView) -> Option<Seq<char>> {
    match d {
        DecisionView::Blocked { source, .. } => source,
        DecisionView::Allowed { source, .. } => source,
        DecisionView::AllowedByDefault => None,
    }
}

/// The category that an event records for a decision.
pub open spec fn category_of(d: DecisionView) -> Option<Seq<char>> {
    match d {
        DecisionView::Blocked { category, .. } => category,
        _ => None,
    }
}

/// The event for a decision on the domain `d` records `d`, the action, the
/// matched rule, its source and (for a block) its category.
pub open spec fn event_records(e: BlockEvent, d: Seq<char>, decision: DecisionView) -> bool {
    &&& e.domain@ == d
    &&& e.action == action_of(decision)
    &&& opt_string_view(e.matched_rule) == matched_rule_of(decision)
    &&& opt_string_view(e.rule_source) == source_of(decision)
    &&& opt_string_view(e.category) == category_of(decision)
}

/// The engine: a blocklist and an allowlist.
#[derive(Debug, Clone)]
pub struct BlockerEngine {
    blocklist: RuleSet,
    allowlist: RuleSet,
}

/// An engine, by the views of its two lists.
pub struct EngineView {
    pub blocklist: Seq<RuleView>,
    pub allowlist: Seq<RuleView>,
}

impl View for BlockerEngine {
    type V = EngineView;

    closed spec fn view(&self) -> EngineView {
        EngineView { blocklist: self.blocklist@, allowlist: self.allowlist@ }
    }
}

/// The list after adding a rule, as `RuleSet::add` leaves it.
pub open spec fn added(rules: Seq<RuleView>, r: RuleView) -> Seq<RuleView> {
    if has_domain(rules, r.domain) {
        rules
    } else {
        rules.push(r)
    }
}

/// The list after adding each of `new_rules` in order, and how many were added.
pub open spec fn add_all(rules: Seq<RuleView>, new_rules: Seq<RuleView>) -> (Seq<RuleView>, nat)
    decreases new_rules.len(),
{
    if new_rules.len() == 0 {
        (rules, 0)
    } else {
        let (r, n) = add_all(rules, new_rules.drop_last());
        if has_domain(r, new_rules.last().domain) {
            (r, n)
        } else {
            (r.push(new_rules.last()), n + 1)
        }
    }
}

/// Adding rules grows a list by exactly the number added, and keeps it free of
/// duplicate domains.
pub proof fn lemma_add_all(rules: Seq<RuleView>, new_rules: Seq<RuleView>)
    ensures
        add_all(rules, new_rules).0.len() == rules.len() + add_all(rules, new_rules).1,
        add_all(rules, new_rules).1 <= new_rules.len(),
        crate::rule::distinct_domains(rules) ==> crate::rule::distinct_domains(
            add_all(rules, new_rules).0,
        ),
    decreases new_rules.len(),
{
    if new_rules.len() > 0 {
        lemma_add_all(rules, new_rules.drop_last());
        let (r, n) = add_all(rules, new_rules.drop_last());
        let x = new_rules.last();
        if !has_domain(r, x.domain) && crate::rule::distinct_domains(r) {
            let w = r.push(x);
            assert forall|i: int, j: int|
                0 <= i < w.len() && 0 <= j < w.len() && i != j implies #[trigger] w[i].domain
                != #[trigger] w[j].domain by {
                if i == w.len() - 1 {
                    assert(r[j].domain != x.domain);
                } else if j == w.len() - 1 {
                    assert(r[i].domain != x.domain);
                }
            }
        }
    }
}

/// The report that the engine gives back after loading a text: the counts of
/// rules that the engine's lists gained, and the loader's ignored and skipped
/// lines.
pub open spec fn engine_report(loaded: LoadView, added_block: nat, added_allow: nat) -> ReportView {
    ReportView {
        added_block_rules: added_block,
        added_allow_rules: added_allow,
        ignored_lines: loaded.report.ignored_lines,
        skipped_rules: loaded.report.skipped_rules,
    }
}

impl Default for BlockerEngine {
    fn default() -> (e: Self)
        ensures
            e@.blocklist == Seq::<RuleView>::empty(),
            e@.allowlist == Seq::<RuleView>::empty(),
    {
        BlockerEngine { blocklist: RuleSet::new(), allowlist: RuleSet::new() }
    }
}

impl BlockerEngine {
    /// Both lists hold no two rules with the same domain.
    pub open spec fn wf(&self) -> bool {
        &&& crate::rule::distinct_domains(self@.blocklist)
        &&& crate::rule::distinct_domains(self@.allowlist)
    }

    /// An engine with empty lists.
    pub fn new() -> (e: Self)
        ensures
            e@.blocklist == Seq::<RuleView>::empty(),
            e@.allowlist == Seq::<RuleView>::empty(),
            e.wf(),
    {
        BlockerEngine { blocklist: RuleSet::new(), allowlist: RuleSet::new() }
    }

    /// An engine with the given lists.
    pub fn from_rules(blocklist: RuleSet, allowlist: RuleSet) -> (e: Self)
        ensures
            e@.blocklist == blocklist@,
            e@.allowlist == allowlist@,
    {
        BlockerEngine { blocklist, allowlist }
    }

    /// Adds a block rule built from raw text.
    pub fn add_block_rule(&mut self, domain: &str, source: Option<&str>, category: Option<&str>) -> (r:
        Result<(), BlockerError>)
        ensures
            final(self)@.allowlist == old(self)@.allowlist,
            match new_rule(domain@, opt_str_view(source), opt_str_view(category)) {
                Ok(rv) => r is Ok && final(self)@.blocklist == added(old(self)@.blocklist, rv),
                Err(e) => r is Err && r->Err_0@ == e && final(self)@.blocklist == old(
                    self,
                )@.blocklist,
            },
            old(self).wf() ==> final(self).wf(),
    {
        let rule = Rule::new(domain, source, category)?;
        self.blocklist.add(rule);
        Ok(())
    }

    /// Adds an allow rule built from raw text.
    pub fn add_allow_rule(&mut self, domain: &str, source: Option<&str>, category: Option<&str>) -> (r:
        Result<(), BlockerError>)
        ensures
            final(self)@.blocklist == old(self)@.blocklist,
            match new_rule(domain@, opt_str_view(source), opt_str_view(category)) {
                Ok(rv) => r is Ok && final(self)@.allowlist == added(old(self)@.allowlist, rv),
                Err(e) => r is Err && r->Err_0@ == e && final(self)@.allowlist == old(
                    self,
                )@.allowlist,
            },
            old(self).wf() ==> final(self).wf(),
    {
        let rule = Rule::new(domain, source, category)?;
        self.allowlist.add(rule);
        Ok(())
    }

    /// Removes the allow rules for the normalised domain.
    pub fn remove_allow_rule(&mut self, domain: &str) -> (r: Result<bool, BlockerError>)
        ensures
            final(self)@.blocklist == old(self)@.blocklist,
            match normalize(domain@) {
                Ok(d) => {
                    &&& final(self)@.allowlist == crate::rule::without_domain(
                        old(self)@.allowlist,
                        d,
                    )
                    &&& r == Ok::<bool, BlockerError>(final(self)@.allowlist.len() != old(
                        self,
                    )@.allowlist.len())
                },
                Err(e) => {
                    &&& final(self)@.allowlist == old(self)@.allowlist
                    &&& r is Err
                    &&& r->Err_0@ == e
                },
            },
            old(self).wf() ==> final(self).wf(),
    {
        self.allowlist.remove(domain)
    }

    /// Decides on a domain: allowlist first, then blocklist, else allowed by
    /// default.
    pub fn check_domain(&self, raw_domain: &str) -> (r: Result<BlockDecision, BlockerError>)
        ensures
            match check(self@.blocklist, self@.allowlist, raw_domain@) {
                Ok(dv) => r is Ok && r->Ok_0@ == dv,
                Err(e) => r is Err && r->Err_0@ == e,
            },
    {
        let domain = normalize_domain(raw_domain)?;
        proof {
            law_normalize_idempotent(raw_domain@);
        }
        if let Some(rule) = self.allowlist.find_match(domain.as_str())? {
            return Ok(
                BlockDecision::Allowed {
                    domain,
                    matched_rule: rule.domain().to_owned(),
                    source: opt_to_string(rule.source()),
                },
            );
        }
        if let Some(rule) = self.blocklist.find_match(domain.as_str())? {
            return Ok(
                BlockDecision::Blocked {
                    domain,
                    matched_rule: rule.domain().to_owned(),
                    source: opt_to_string(rule.source()),
                    category: opt_to_string(rule.category()),
                },
            );
        }
        Ok(BlockDecision::AllowedByDefault)
    }

    /// Decides on a domain and records the decision as an event.
    pub fn check_domain_with_event(&self, raw_domain: &str) -> (r: Result<BlockEvent, BlockerError>)
        ensures
            match check(self@.blocklist, self@.allowlist, raw_domain@) {
                Ok(dv) => r is Ok && event_records(r->Ok_0, normalize(raw_domain@)->Ok_0, dv),
                Err(e) => r is Err && r->Err_0@ == e,
            },
    {
        let normalized = normalize_domain(raw_domain)?;
        proof {
            law_normalize_idempotent(raw_domain@);
        }
        match self.check_domain(normalized.as_str())? {
            BlockDecision::Blocked { matched_rule, source, category, .. } => Ok(
                BlockEvent::new(
                    normalized,
                    BlockAction::Blocked,
                    Some(matched_rule),
                    source,
                    category,
                ),
            ),
            BlockDecision::Allowed { matched_rule, source, .. } => Ok(
                BlockEvent::new(
                    normalized,
                    BlockAction::AllowedByUserRule,
                    Some(matched_rule),
                    source,
                    None,
                ),
            ),
            BlockDecision::AllowedByDefault => Ok(
                BlockEvent::new(normalized, BlockAction::AllowedByDefault, None, None, None),
            ),
        }
    }

    /// Loads the rules of a text into the engine. The report counts the rules
    /// that the engine's lists gained (a rule already there is not counted).
    pub fn load_rules_from_text(
        &mut self,
        text: &str,
        source: Option<&str>,
        category: Option<&str>,
    ) -> (report: RuleLoadReport)
        ensures
            ({
                let loaded = load_text(text@, opt_str_view(source), opt_str_view(category));
                let (b, nb) = add_all(old(self)@.blocklist, loaded.blocklist);
                let (a, na) = add_all(old(self)@.allowlist, loaded.allowlist);
                &&& final(self)@.blocklist == b
                &&& final(self)@.allowlist == a
                &&& report@ == engine_report(loaded, nb, na)
            }),
            old(self).wf() ==> final(self).wf(),
    {
        let loaded = crate::loader::load_rules_from_text(text, source, category);
        let ghost lv = loaded@;
        let mut report = loaded.report;
        report.added_block_rules = 0;
        report.added_allow_rules = 0;
        let block_rules = loaded.blocklist.into_rules();
        let ghost new_block = lv.blocklist;
        let ghost old_block = self.blocklist@;
        let nb = block_rules.len();
        assert(new_block.len() == nb);
        proof {
            lemma_add_all(old_block, new_block);
        }
        for rule in it: block_rules.into_iter()
            invariant
                it.seq().map_values(|r: Rule| r@) == new_block,
                (self.blocklist@, report.added_block_rules as nat) == add_all(
                    old_block,
                    new_block.take(it.index() as int),
                ),
                report.added_block_rules <= it.index(),
                new_block.len() <= usize::MAX,
                report.added_allow_rules == 0,
                report@.ignored_lines == lv.report.ignored_lines,
                report@.skipped_rules == lv.report.skipped_rules,
                self.allowlist@ == old(self)@.allowlist,
                crate::rule::distinct_domains(old_block) ==> crate::rule::distinct_domains(
                    self.blocklist@,
                ),
        {
            let ghost k = it.index() as int;
            assert(k < new_block.len());
            assert(new_block.take(k + 1).drop_last() =~= new_block.take(k));
            assert(new_block.take(k + 1).last() == rule@);
            proof {
                lemma_add_all(old_block, new_block.take(k));
            }
            if self.blocklist.add(rule) {
                report.added_block_rules = report.added_block_rules + 1;
            }
        }
        assert(new_block.take(new_block.len() as int) =~= new_block);
        let allow_rules = loaded.allowlist.into_rules();
        let ghost new_allow = lv.allowlist;
        let ghost old_allow = self.allowlist@;
        let ghost block_after = self.blocklist@;
        let na = allow_rules.len();
        assert(new_allow.len() == na);
        for rule in it: allow_rules.into_iter()
            invariant
                it.seq().map_values(|r: Rule| r@) == new_allow,
                (self.allowlist@, report.added_allow_rules as nat) == add_all(
                    old_allow,
                    new_allow.take(it.index() as int),
                ),
                report.added_allow_rules <= it.index(),
                new_allow.len() <= usize::MAX,
                self.blocklist@ == block_after,
                report@.added_block_rules == add_all(old_block, new_block).1,
                report@.ignored_lines == lv.report.ignored_lines,
                report@.skipped_rules == lv.report.skipped_rules,
                crate::rule::distinct_domains(old_allow) ==> crate::rule::distinct_domains(
                    self.allowlist@,
                ),
        {
            let ghost k = it.index() as int;
            assert(k < new_allow.len());
            assert(new_allow.take(k + 1).drop_last() =~= new_allow.take(k));
            assert(new_allow.take(k + 1).last() == rule@);
            proof {
                lemma_add_all(old_allow, new_allow.take(k));
            }
            if self.allowlist.add(rule) {
                report.added_allow_rules = report.added_allow_rules + 1;
            }
        }
        assert(new_allow.take(new_allow.len() as int) =~= new_allow);
        report
    }

    /// A copy of this engine.
    pub fn duplicate(&self) -> (r: Self)
        ensures
            r@ == self@,
    {
        BlockerEngine { blocklist: self.blocklist.duplicate(), allowlist: self.allowlist.duplicate() }
    }

    /// The blocklist.
    pub fn blocklist(&self) -> (r: &RuleSet)
        ensures
            r@ == self@.blocklist,
    {
        &self.blocklist
    }

    /// The allowlist.
    pub fn allowlist(&self) -> (r: &RuleSet)
        ensures
            r@ == self@.allowlist,
    {
        &self.allowlist
    }
}

} // verus!
