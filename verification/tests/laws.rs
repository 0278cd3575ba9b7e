use blocker::dns::{
    build_block_response, build_error_response, decide_dns_query, make_dns_query_packet,
    parse_dns_question, DnsPacketError, DnsQueryDecision,
    DNS_RCODE_SERVFAIL, DNS_TYPE_A, DNS_TYPE_AAAA,
};
use blocker::store::{protection_enabled_from, protection_setting_value};
use blocker::{load_rules_from_text, normalize_domain, BlockDecision, BlockerEngine, Rule};

#[test]
fn allow_rule_wins_over_block_rule_for_covered_names() {
    let mut engine = BlockerEngine::new();
    engine.add_block_rule("example.com", Some("list"), Some("ad")).unwrap();
    engine.add_allow_rule("safe.example.com", Some("user"), None).unwrap();

    let allowed = engine.check_domain("a.safe.example.com").unwrap();
    assert_eq!(
        allowed,
        BlockDecision::Allowed {
            domain: "a.safe.example.com".to_string(),
            matched_rule: "safe.example.com".to_string(),
            source: Some("user".to_string()),
        }
    );
    assert!(matches!(
        engine.check_domain("ads.example.com").unwrap(),
        BlockDecision::Blocked { .. }
    ));
}

#[test]
fn rules_cover_names_below_them_only() {
    let rule = Rule::new("Example.COM", None, None).unwrap();
    assert!(rule.matches("x.y.example.com"));
    assert!(rule.matches("example.com"));
    assert!(!rule.matches("example.com.evil"));
    assert!(!rule.matches("xexample.com"));
}

#[test]
fn uncovered_names_are_allowed_by_default() {
    let mut engine = BlockerEngine::new();
    engine.add_block_rule("ads.example.com", None, None).unwrap();
    assert_eq!(engine.check_domain("example.com").unwrap(), BlockDecision::AllowedByDefault);
}

#[test]
fn adding_a_rule_twice_changes_nothing() {
    let mut engine = BlockerEngine::new();
    engine.add_block_rule("ads.example.com", Some("a"), None).unwrap();
    engine.add_block_rule("*.ADS.example.com", Some("b"), None).unwrap();
    assert_eq!(engine.blocklist().len(), 1);
    assert_eq!(engine.blocklist().get(0).source(), Some("a"));
}

#[test]
fn removing_undoes_adding() {
    let mut engine = BlockerEngine::new();
    engine.add_allow_rule("safe.example.com", None, None).unwrap();
    assert_eq!(engine.remove_allow_rule("SAFE.example.com"), Ok(true));
    assert!(engine.allowlist().is_empty());
    assert_eq!(engine.remove_allow_rule("safe.example.com"), Ok(false));
}

#[test]
fn load_reports_count_the_loaded_rules() {
    let text = "a.com\nA.com\n@@||b.com^\n# note\nbad domain\n||c.com^\n";
    let loaded = load_rules_from_text(text, None, None);
    assert_eq!(loaded.report.added_block_rules, loaded.blocklist.len());
    assert_eq!(loaded.report.added_allow_rules, loaded.allowlist.len());
    assert_eq!(loaded.report.added_block_rules, 2);
    assert_eq!(loaded.report.added_allow_rules, 1);
    assert_eq!(loaded.report.ignored_lines, 1);
    assert_eq!(loaded.report.skipped_count(), 1);
}

#[test]
fn engine_lists_grow_by_the_reported_counts() {
    let mut engine = BlockerEngine::new();
    engine.add_block_rule("a.com", None, None).unwrap();
    let report = engine.load_rules_from_text("a.com\nb.com\n@@c.com\n", Some("l"), None);
    assert_eq!(report.added_block_rules, 1);
    assert_eq!(report.added_allow_rules, 1);
    assert_eq!(engine.blocklist().len(), 1 + report.added_block_rules);
    assert_eq!(engine.allowlist().len(), report.added_allow_rules);
}

#[test]
fn normalising_twice_changes_nothing() {
    let once = normalize_domain("HTTPS://user@Ads.Example.Com.:8080/x").unwrap();
    assert_eq!(once, "ads.example.com");
    assert_eq!(normalize_domain(&once).unwrap(), once);
}

#[test]
fn protection_setting_reads_back() {
    assert!(protection_enabled_from(Some(protection_setting_value(true))));
    assert!(!protection_enabled_from(Some(protection_setting_value(false))));
}

#[test]
fn answers_carry_the_question_they_answer() {
    for qtype in [DNS_TYPE_A, DNS_TYPE_AAAA, 15] {
        let query = make_dns_query_packet("Ads.Example.com", qtype);
        let question = parse_dns_question(&query).unwrap();
        let blocked = build_block_response(&query, &question, 60).unwrap();
        assert_eq!(parse_dns_question(&blocked).unwrap(), question);
        let failed = build_error_response(&query, &question, DNS_RCODE_SERVFAIL).unwrap();
        assert_eq!(parse_dns_question(&failed).unwrap(), question);
    }
}

#[test]
fn dns_check_agrees_with_the_engine() {
    let mut engine = BlockerEngine::new();
    engine.add_block_rule("example.com", None, None).unwrap();
    engine.add_allow_rule("ok.example.com", None, None).unwrap();
    for domain in ["ads.Example.com", "ok.example.com", "example.org", "a.b.example.com"] {
        let query = make_dns_query_packet(domain, DNS_TYPE_A);
        let decision = decide_dns_query(&query, &engine, 60).unwrap();
        let blocked = matches!(engine.check_domain(domain).unwrap(), BlockDecision::Blocked { .. });
        assert_eq!(matches!(decision, DnsQueryDecision::Block { .. }), blocked);
        assert_eq!(matches!(decision, DnsQueryDecision::Forward { .. }), !blocked);
    }
}

#[test]
fn blocking_answers_point_at_the_zero_address() {
    for (qtype, data_len, answers) in [(DNS_TYPE_A, 4usize, 1u8), (DNS_TYPE_AAAA, 16, 1), (15, 0, 0)] {
        let query = make_dns_query_packet("ads.example.com", qtype);
        let question = parse_dns_question(&query).unwrap();
        let response = build_block_response(&query, &question, 300).unwrap();
        assert_eq!(&response[0..2], &query[0..2]);
        assert!(response[2] >= 0x80);
        assert_eq!(response[7], answers);
        if data_len > 0 {
            assert_eq!(response.len(), question.question_end + 12 + data_len);
            assert!(response[response.len() - data_len..].iter().all(|b| *b == 0));
        } else {
            assert_eq!(response.len(), question.question_end);
        }
    }
}

#[test]
fn probe_queries_read_back_as_their_domain() {
    let query = make_dns_query_packet("Sub.Example.COM", DNS_TYPE_AAAA);
    let question = parse_dns_question(&query).unwrap();
    assert_eq!(question.domain, "sub.example.com");
    assert_eq!(question.qtype, DNS_TYPE_AAAA);
    assert_eq!(question.question_end, query.len());

    let unicode = make_dns_query_packet("bücher.de", DNS_TYPE_A);
    assert_eq!(
        parse_dns_question(&unicode),
        Err(DnsPacketError::InvalidDomain("InvalidDomain(\"bücher.de\")".to_string()))
    );
}

#[test]
fn canonical_domains_read_back_exactly() {
    for domain in ["a.b", "ads.example.com", "x-1_y.test"] {
        let query = make_dns_query_packet(domain, DNS_TYPE_A);
        let question = parse_dns_question(&query).unwrap();
        assert_eq!(question.domain, domain);
        assert_eq!(question.question_end, 12 + domain.len() + 6);
    }
}

#[test]
fn loaded_rules_carry_their_list_and_issues_their_lines() {
    let text = "a.com\nbad rule here\n@@b.com\nexample.com##.x\n";
    let loaded = load_rules_from_text(text, Some("list"), Some("ads"));
    assert_eq!(loaded.blocklist.get(0).source(), Some("list"));
    assert_eq!(loaded.allowlist.get(0).category(), Some("ads"));
    let numbers: Vec<usize> = loaded.report.skipped_rules.iter().map(|i| i.line_number).collect();
    assert_eq!(numbers, vec![2, 4]);
    assert_eq!(loaded.report.skipped_rules[0].line, "bad rule here");
    assert_eq!(loaded.report.skipped_rules[1].line, "example.com##.x");
}
