use blocker::cli::{
    add_manual_rules, add_stored_allow_rules, check_dns_request,
    decision_headline, format_action, next_value, parse_allow_command, parse_allowlist_command,
    parse_api_serve_command, parse_check_command, parse_dev_run_command, parse_dns_probe_command,
    parse_dns_serve_command, parse_events_command, parse_unallow_command, AllowCommand,
    AllowlistCommand, ApiServeCommand, CheckCommand, CliParse, DevRunCommand, DnsProbeCommand,
    DnsServeCommand, EventsCommand, UnallowCommand,
};
use blocker::dns::{make_dns_query_packet, parse_dns_question, DNS_CLASS_IN, DNS_TYPE_A};
use blocker::event::{current_unix_seconds, system_time_to_unix_seconds, unix_seconds_from};
use blocker::store::{
    action_to_text, clamp_limit, protection_enabled_from, protection_setting_value,
    should_store_event,
};
use blocker::{BlockAction, BlockDecision, BlockerEngine, BlockerError};
use std::time::{Duration, UNIX_EPOCH};

fn args(items: &[&str]) -> Vec<String> {
    items.iter().map(|s| s.to_string()).collect()
}

fn strings(items: &[&str]) -> Vec<String> {
    args(items)
}

#[test]
fn check_command_reads_domain_and_options() {
    let parsed = parse_check_command(&args(&[
        "ads.example.com",
        "--rules",
        "list.txt",
        "--block",
        "x.com",
        "--allow",
        "y.com",
        "--block",
        "z.com",
        "--db",
        "b.db",
    ]))
    .unwrap();
    assert_eq!(
        parsed,
        CliParse::Run(CheckCommand {
            domain: "ads.example.com".to_string(),
            rule_files: strings(&["list.txt"]),
            block_rules: strings(&["x.com", "z.com"]),
            allow_rules: strings(&["y.com"]),
            db_path: Some("b.db".to_string()),
        })
    );
}

#[test]
fn commands_without_their_domain_are_refused() {
    assert_eq!(parse_check_command(&[]), Err("Missing domain for check command".to_string()));
    assert_eq!(parse_allow_command(&[]), Err("Missing domain for allow command".to_string()));
    assert_eq!(parse_unallow_command(&[]), Err("Missing domain for unallow command".to_string()));
    assert_eq!(
        parse_dns_probe_command(&[]),
        Err("Missing domain for dns-probe command".to_string())
    );
}

#[test]
fn unknown_options_are_named_in_the_error() {
    assert_eq!(
        parse_check_command(&args(&["a.com", "--ttl", "5"])),
        Err("Unknown check option: --ttl".to_string())
    );
    assert_eq!(
        parse_allowlist_command(&args(&["--limit", "5"])),
        Err("Unkown allowlist option: --limit".to_string())
    );
    assert_eq!(
        parse_unallow_command(&args(&["a.com", "--rules", "x"])),
        Err("Unknown unallow option: --rules".to_string())
    );
    assert_eq!(
        parse_api_serve_command(&args(&["--help"])),
        Err("Unknown api-serve option: --help".to_string())
    );
}

#[test]
fn help_is_recognised() {
    assert_eq!(parse_events_command(&args(&["--help"])), Ok(CliParse::Help));
    assert_eq!(parse_check_command(&args(&["a.com", "-h"])), Ok(CliParse::Help));
    assert_eq!(parse_api_serve_command(&args(&["help"])), Ok(CliParse::Help));
    assert_eq!(parse_dev_run_command(&args(&["--db", "x", "-h", "--bogus"])), Ok(CliParse::Help));
}

#[test]
fn option_values_are_checked() {
    assert_eq!(
        parse_dns_serve_command(&args(&["--ttl"])),
        Err("Missing value after --ttl".to_string())
    );
    assert_eq!(
        parse_dns_serve_command(&args(&["--ttl", "abc"])),
        Err("Invalid --ttl value: abc".to_string())
    );
    assert_eq!(
        parse_events_command(&args(&["--limit", "-x"])),
        Err("Invalid --limit value: -x".to_string())
    );
    assert_eq!(
        parse_api_serve_command(&args(&["--listen"])),
        Err("Missing value after --listen".to_string())
    );
}

#[test]
fn commands_fill_in_their_defaults() {
    assert_eq!(
        parse_events_command(&[]),
        Ok(CliParse::Run(EventsCommand { db_path: "blocker.db".to_string(), limit: 50 }))
    );
    assert_eq!(
        parse_events_command(&args(&["--limit", "-4", "--db", "e.db"])),
        Ok(CliParse::Run(EventsCommand { db_path: "e.db".to_string(), limit: -4 }))
    );
    assert_eq!(
        parse_allow_command(&args(&["a.com"])),
        Ok(CliParse::Run(AllowCommand {
            domain: "a.com".to_string(),
            db_path: "blocker.db".to_string()
        }))
    );
    assert_eq!(
        parse_unallow_command(&args(&["a.com", "--db", "u.db"])),
        Ok(CliParse::Run(UnallowCommand {
            domain: "a.com".to_string(),
            db_path: "u.db".to_string()
        }))
    );
    assert_eq!(
        parse_allowlist_command(&[]),
        Ok(CliParse::Run(AllowlistCommand { db_path: "blocker.db".to_string() }))
    );
    assert_eq!(
        parse_dns_probe_command(&args(&["a.com"])),
        Ok(CliParse::Run(DnsProbeCommand {
            domain: "a.com".to_string(),
            server_addr: "127.0.0.1:5300".to_string()
        }))
    );
    assert_eq!(
        parse_api_serve_command(&args(&["--db", "api.db"])),
        Ok(CliParse::Run(ApiServeCommand {
            db_path: "api.db".to_string(),
            listen_addr: "127.0.0.1:4780".to_string()
        }))
    );
    assert_eq!(
        parse_dns_serve_command(&args(&["--block", "x.com", "--ttl", "30"])),
        Ok(CliParse::Run(DnsServeCommand {
            rule_files: vec![],
            block_rules: strings(&["x.com"]),
            allow_rules: vec![],
            db_path: None,
            listen_addr: "127.0.0.1:5353".to_string(),
            upstream_addr: "1.1.1.1:53".to_string(),
            blocked_ttl_seconds: 30,
        }))
    );
    assert_eq!(
        parse_dev_run_command(&args(&["--api-listen", "0.0.0.0:1"])),
        Ok(CliParse::Run(DevRunCommand {
            rule_files: vec![],
            block_rules: vec![],
            allow_rules: vec![],
            db_path: "blocker.db".to_string(),
            dns_listen_addr: "0.0.0.0:5300".to_string(),
            api_listen_addr: "0.0.0.0:1".to_string(),
            upstream_addr: "1.1.1.1:53".to_string(),
            blocked_ttl_seconds: 60,
        }))
    );
}

#[test]
fn next_value_takes_the_following_argument() {
    let line = args(&["--db", "x.db"]);
    assert_eq!(next_value(&line, 0, "--db"), Ok("x.db"));
    assert_eq!(next_value(&line, 1, "--other"), Err("Missing value after --other".to_string()));
}

#[test]
fn actions_have_their_names() {
    assert_eq!(format_action(&BlockAction::Blocked), "blocked");
    assert_eq!(format_action(&BlockAction::AllowedByUserRule), "allowed_by_user_rule");
    assert_eq!(format_action(&BlockAction::AllowedByDefault), "allowed_by_default");
    assert_eq!(action_to_text(&BlockAction::AllowedByUserRule), "allowed_by_user_rule");
}

#[test]
fn blocked_and_user_allowed_events_are_stored() {
    assert!(should_store_event(&BlockAction::Blocked));
    assert!(should_store_event(&BlockAction::AllowedByUserRule));
    assert!(!should_store_event(&BlockAction::AllowedByDefault));
}

#[test]
fn listing_limits_are_clamped() {
    assert_eq!(clamp_limit(0), 1);
    assert_eq!(clamp_limit(-9), 1);
    assert_eq!(clamp_limit(10), 10);
    assert_eq!(clamp_limit(9999), 500);
}

#[test]
fn protection_setting_is_read_from_its_text() {
    assert_eq!(protection_setting_value(true), "true");
    assert_eq!(protection_setting_value(false), "false");
    assert!(protection_enabled_from(None));
    assert!(protection_enabled_from(Some("true")));
    assert!(protection_enabled_from(Some("FALSE")));
    assert!(!protection_enabled_from(Some("false")));
}

#[test]
fn times_are_stored_as_unix_seconds() {
    assert_eq!(unix_seconds_from(None), 0);
    assert_eq!(unix_seconds_from(Some(42)), 42);
    assert_eq!(unix_seconds_from(Some(u64::MAX)), -1);
    assert_eq!(system_time_to_unix_seconds(UNIX_EPOCH + Duration::from_secs(5)), 5);
    assert_eq!(system_time_to_unix_seconds(UNIX_EPOCH - Duration::from_secs(5)), 0);
    assert!(current_unix_seconds() > 1_500_000_000);
}

#[test]
fn probe_queries_are_laid_out_as_dns_packets() {
    let packet = make_dns_query_packet("ads.example.com", DNS_TYPE_A);
    let mut expected = vec![0x12, 0x34, 0x01, 0x00, 0, 1, 0, 0, 0, 0, 0, 0];
    expected.extend_from_slice(&[3, b'a', b'd', b's']);
    expected.extend_from_slice(&[7, b'e', b'x', b'a', b'm', b'p', b'l', b'e']);
    expected.extend_from_slice(&[3, b'c', b'o', b'm', 0, 0, 1, 0, 1]);
    assert_eq!(packet, expected);

    let question = parse_dns_question(&packet).unwrap();
    assert_eq!(question.domain, "ads.example.com");
    assert_eq!(question.qclass, DNS_CLASS_IN);

    let empty = make_dns_query_packet("", 28);
    assert_eq!(&empty[12..], &[0, 0, 0, 28, 0, 1]);
}

#[test]
fn disabled_protection_allows_every_request() {
    let mut base = BlockerEngine::new();
    base.add_block_rule("ads.example.com", Some("cli"), Some("manual")).unwrap();
    let event = check_dns_request(&base, false, &[], &[], "ads.example.com").unwrap();
    assert_eq!(event.domain, "ads.example.com");
    assert_eq!(event.action, BlockAction::AllowedByDefault);
    assert_eq!(event.matched_rule, None);
    assert_eq!(event.rule_source.as_deref(), Some("protection-disabled"));
    assert_eq!(event.category, None);
}

#[test]
fn stored_lists_join_the_base_rules() {
    let mut base = BlockerEngine::new();
    base.add_block_rule("example.com", Some("cli"), Some("manual")).unwrap();

    let blocked = check_dns_request(&base, true, &strings(&["tracker.net"]), &[], "a.tracker.net")
        .unwrap();
    assert_eq!(blocked.action, BlockAction::Blocked);
    assert_eq!(blocked.rule_source.as_deref(), Some("db-blocklist"));
    assert_eq!(blocked.category.as_deref(), Some("user"));

    let allowed = check_dns_request(&base, true, &[], &strings(&["safe.example.com"]), "safe.example.com")
        .unwrap();
    assert_eq!(allowed.action, BlockAction::AllowedByUserRule);
    assert_eq!(allowed.rule_source.as_deref(), Some("db-allowlist"));

    let base_rule = check_dns_request(&base, true, &[], &[], "ads.example.com").unwrap();
    assert_eq!(base_rule.rule_source.as_deref(), Some("cli"));

    assert_eq!(base.blocklist().len(), 1);
}

#[test]
fn bad_stored_domains_fail_the_request() {
    let base = BlockerEngine::new();
    assert_eq!(
        check_dns_request(&base, true, &strings(&["bad domain"]), &[], "a.com").unwrap_err(),
        "InvalidRule(\"bad domain\")"
    );
    assert_eq!(
        check_dns_request(&base, true, &[], &strings(&["x.com", "no\"pe"]), "a.com").unwrap_err(),
        "InvalidRule(\"no\\\"pe\")"
    );
    assert_eq!(
        check_dns_request(&base, true, &[], &[], "   ").unwrap_err(),
        "EmptyDomain"
    );
}

#[test]
fn manual_rules_are_added_block_first() {
    let mut engine = BlockerEngine::new();
    add_manual_rules(&mut engine, &strings(&["a.com", "b.com"]), &strings(&["ok.a.com"])).unwrap();
    assert_eq!(engine.blocklist().len(), 2);
    assert_eq!(engine.blocklist().get(1).source(), Some("cli"));
    assert_eq!(engine.blocklist().get(1).category(), Some("manual"));
    assert_eq!(engine.allowlist().len(), 1);

    let mut failing = BlockerEngine::new();
    let error = add_manual_rules(&mut failing, &strings(&["a.com", "bad!", "c.com"]), &strings(&["x.com"]))
        .unwrap_err();
    assert_eq!(error, BlockerError::InvalidRule("bad!".to_string()));
    assert_eq!(failing.blocklist().len(), 1);
    assert!(failing.allowlist().is_empty());
}

#[test]
fn stored_allow_rules_are_labelled() {
    let mut engine = BlockerEngine::new();
    add_stored_allow_rules(&mut engine, &strings(&["Safe.Example.com"])).unwrap();
    assert_eq!(engine.allowlist().get(0).domain(), "safe.example.com");
    assert_eq!(engine.allowlist().get(0).source(), Some("db-allowlist"));
    assert_eq!(engine.allowlist().get(0).category(), Some("user"));
    assert!(engine.blocklist().is_empty());
}

#[test]
fn decisions_have_headlines() {
    assert_eq!(decision_headline(&BlockDecision::AllowedByDefault), "ALLOWED BY DEFAULT: ");
    let blocked = BlockDecision::Blocked {
        domain: "a.com".to_string(),
        matched_rule: "a.com".to_string(),
        source: None,
        category: None,
    };
    assert_eq!(decision_headline(&blocked), "BLOCKED: ");
    let allowed = BlockDecision::Allowed {
        domain: "a.com".to_string(),
        matched_rule: "a.com".to_string(),
        source: None,
    };
    assert_eq!(decision_headline(&allowed), "ALLOWED BY LIST: ");
}

#[test]
fn api_serve_listen_sets_the_address() {
    assert_eq!(
        parse_api_serve_command(&args(&["--listen", "127.0.0.1:9000"])),
        Ok(CliParse::Run(ApiServeCommand {
            db_path: "blocker.db".to_string(),
            listen_addr: "127.0.0.1:9000".to_string()
        }))
    );
    assert_eq!(
        parse_api_serve_command(&args(&["--listen", "a:1", "--db", "x.db", "--listen", "b:2"])),
        Ok(CliParse::Run(ApiServeCommand {
            db_path: "x.db".to_string(),
            listen_addr: "b:2".to_string()
        }))
    );
    assert_eq!(parse_api_serve_command(&args(&["--listen", "a:1", "help"])), Ok(CliParse::Help));
}

fn ttl_of(value: &str) -> Result<u32, String> {
    match parse_dns_serve_command(&args(&["--ttl", value]))? {
        CliParse::Run(command) => Ok(command.blocked_ttl_seconds),
        CliParse::Help => Err("help".to_string()),
    }
}

fn limit_of(value: &str) -> Result<i64, String> {
    match parse_events_command(&args(&["--limit", value]))? {
        CliParse::Run(command) => Ok(command.limit),
        CliParse::Help => Err("help".to_string()),
    }
}

#[test]
fn numbers_are_read_as_std_reads_them() {
    assert_eq!(ttl_of("+7"), Ok(7));
    assert_eq!(ttl_of("007"), Ok(7));
    assert_eq!(ttl_of("4294967295"), Ok(u32::MAX));
    assert!(ttl_of("4294967296").is_err());
    assert!(ttl_of("-0").is_err());
    assert!(ttl_of("+").is_err());
    assert!(ttl_of("").is_err());
    assert!(ttl_of(" 5").is_err());
    assert!(ttl_of("5s").is_err());

    assert_eq!(limit_of("-9223372036854775808"), Ok(i64::MIN));
    assert_eq!(limit_of("+9223372036854775807"), Ok(i64::MAX));
    assert!(limit_of("9223372036854775808").is_err());
    assert!(limit_of("-").is_err());
    assert!(limit_of("+-1").is_err());
    assert!(limit_of("--1").is_err());
    assert_eq!(limit_of("-0"), Ok(0));
}

#[test]
fn copied_events_keep_their_time() {
    let engine = BlockerEngine::new();
    let event = engine.check_domain_with_event("a.com").unwrap();
    let copy = event.clone();
    assert_eq!(copy.occurred_at, event.occurred_at);
    assert_eq!(copy.domain, "a.com");
    assert_eq!(copy.action, BlockAction::AllowedByDefault);
}
