use blocker::{
    load_rules_from_text, normalize_domain, BlockAction, BlockDecision, BlockerEngine,
    BlockerError, Rule, RuleSet,
};

#[test]
fn normalizes_case_and_trailing_dot() {
    assert_eq!(normalize_domain("Ads.Example.Com.").unwrap(), "ads.example.com");
}

#[test]
fn normalizes_url_input() {
    assert_eq!(
        normalize_domain("https://ads.example.com/path?x=1").unwrap(),
        "ads.example.com"
    );
}

#[test]
fn normalizes_port_input() {
    assert_eq!(normalize_domain("ads.example.com:443").unwrap(), "ads.example.com");
}

#[test]
fn rejects_empty_input() {
    assert_eq!(normalize_domain("   "), Err(BlockerError::EmptyDomain));
}

#[test]
fn blocked_decision_contains_rule_metadata() {
    let mut engine = BlockerEngine::new();
    engine
        .add_block_rule("tracker.example.com", Some("easyprivacy"), Some("tracker"))
        .unwrap();

    let decision = engine.check_domain("tracker.example.com").unwrap();

    assert_eq!(
        decision,
        BlockDecision::Blocked {
            domain: "tracker.example.com".to_string(),
            matched_rule: "tracker.example.com".to_string(),
            source: Some("easyprivacy".to_string()),
            category: Some("tracker".to_string()),
        }
    );
}

#[test]
fn event_maps_blocked_decision() {
    let mut engine = BlockerEngine::new();
    engine.add_block_rule("ads.example.com", Some("test"), Some("ad")).unwrap();

    let event = engine.check_domain_with_event("ads.example.com").unwrap();
    assert_eq!(event.action, BlockAction::Blocked);
    assert_eq!(event.matched_rule.as_deref(), Some("ads.example.com"));
}

#[test]
fn engine_loads_rules_from_text() {
    let mut engine = BlockerEngine::new();

    let text = r#"
        ||doubleclick.net^
        @@||safe.doubleclick.net^
        "#;

    let report = engine.load_rules_from_text(text, Some("test-list"), Some("tracker"));

    assert_eq!(report.added_block_rules, 1);
    assert_eq!(report.added_allow_rules, 1);

    let blocked = engine.check_domain("ads.doubleclick.net").unwrap();
    assert!(matches!(blocked, BlockDecision::Blocked { .. }));

    let allowed = engine.check_domain("safe.doubleclick.net").unwrap();
    assert!(matches!(allowed, BlockDecision::Allowed { .. }));
}

#[test]
fn allowlist_overrides_blocklist() {
    let mut engine = BlockerEngine::new();
    engine.add_block_rule("ads.example.com", Some("test"), Some("ad")).unwrap();
    engine.add_allow_rule("ads.example.com", Some("user"), None).unwrap();

    let decision = engine.check_domain("ads.example.com").unwrap();
    assert!(matches!(decision, BlockDecision::Allowed { .. }));
}

#[test]
fn parent_domain_rule_matches_subdomain() {
    let mut engine = BlockerEngine::new();
    engine.add_block_rule("doubleclick.net", Some("test"), Some("tracker")).unwrap();

    let decision = engine.check_domain("stats.doubleclick.net").unwrap();
    assert!(matches!(decision, BlockDecision::Blocked { .. }));
}

#[test]
fn unrelated_domain_is_allowed_by_default() {
    let engine = BlockerEngine::new();
    let decision = engine.check_domain("example.org").unwrap();
    assert_eq!(decision, BlockDecision::AllowedByDefault);
}

#[test]
fn loads_plain_domain_rules() {
    let text = r#"
            ads.example.com
            tracker.example.com
        "#;

    let loaded = load_rules_from_text(text, Some("test-list"), Some("ad"));

    assert_eq!(loaded.report.added_block_rules, 2);
    assert_eq!(loaded.report.added_allow_rules, 0);
    assert!(loaded.blocklist.find_match("ads.example.com").unwrap().is_some());
}

#[test]
fn loads_hosts_file_rules() {
    let text = r#"
            0.0.0.0 ads.example.com
            127.0.0.1 tracker.example.com
        "#;

    let loaded = load_rules_from_text(text, Some("hosts"), Some("tracker"));

    assert_eq!(loaded.report.added_block_rules, 2);
    assert!(loaded.blocklist.find_match("tracker.example.com").unwrap().is_some());
}

#[test]
fn loads_adblock_domain_anchor_rules() {
    let text = r#"
            ||doubleclick.net^
            ||analytics.example.com^$script,third-party
        "#;

    let loaded = load_rules_from_text(text, Some("adblock-style"), Some("tracker"));

    assert_eq!(loaded.report.added_block_rules, 2);
    assert!(loaded.blocklist.find_match("ads.doubleclick.net").unwrap().is_some());
    assert!(loaded.blocklist.find_match("analytics.example.com").unwrap().is_some());
}

#[test]
fn loads_exception_rules_as_allowlist() {
    let text = r#"
            ||ads.example.com^
            @@||safe.ads.example.com^
        "#;

    let loaded = load_rules_from_text(text, Some("test-list"), Some("ad"));

    assert_eq!(loaded.report.added_block_rules, 1);
    assert_eq!(loaded.report.added_allow_rules, 1);
    assert!(loaded.blocklist.find_match("ads.example.com").unwrap().is_some());
    assert!(loaded.allowlist.find_match("safe.ads.example.com").unwrap().is_some());
}

#[test]
fn skips_cosmetic_filters() {
    let text = r#"
            example.com##.ad-banner
            ads.example.com
        "#;

    let loaded = load_rules_from_text(text, Some("test-list"), Some("ad"));

    assert_eq!(loaded.report.added_block_rules, 1);
    assert_eq!(loaded.report.skipped_count(), 1);
}

#[test]
fn ignores_comments_and_empty_lines() {
    let text = r#"
            # hosts comment
            ! adblock comment

            ads.example.com # inline comment
        "#;

    let loaded = load_rules_from_text(text, Some("test-list"), Some("ad"));

    assert_eq!(loaded.report.added_block_rules, 1);
    assert!(loaded.report.ignored_lines >= 3);
}

#[test]
fn rule_matches_root_and_subdomains() {
    let rule = Rule::new("example.com", None, None).unwrap();
    assert!(rule.matches("example.com"));
    assert!(rule.matches("ads.example.com"));
    assert!(rule.matches("a.b.example.com"));
    assert!(!rule.matches("fakeexample.com"));
}

#[test]
fn wildcard_prefix_is_accepted() {
    let rule = Rule::new("*.example.com", None, None).unwrap();
    assert_eq!(rule.domain(), "example.com");
}

#[test]
fn duplicate_rules_are_ignored() {
    let mut set = RuleSet::new();
    set.add(Rule::new("example.com", None, None).unwrap());
    set.add(Rule::new("EXAMPLE.COM", None, None).unwrap());
    assert_eq!(set.len(), 1);
}
