use blocker::dns::{make_dns_query_packet, DnsPacketError, DNS_TYPE_A};
use blocker::server::{
    plan_dns_packet, step_for_action, step_for_check, upstream_failure_response, DnsEventStep,
    DnsPacketPlan,
};
use blocker::{BlockAction, BlockerEngine};

#[test]
fn reverse_lookups_are_answered_at_once() {
    let query = make_dns_query_packet("4.3.2.1.in-addr.arpa", 12);
    match plan_dns_packet(&query).unwrap() {
        DnsPacketPlan::Answer { domain, response } => {
            assert_eq!(domain, "4.3.2.1.in-addr.arpa");
            assert_eq!(&response[0..2], &[0x12, 0x34]);
            assert_eq!(response[3] & 0x0F, 3);
            assert_eq!(&response[12..], &query[12..]);
        }
        other => panic!("unexpected {other:?}"),
    }
}

#[test]
fn other_queries_are_checked() {
    let query = make_dns_query_packet("Ads.Example.com", DNS_TYPE_A);
    match plan_dns_packet(&query).unwrap() {
        DnsPacketPlan::CheckDomain(question) => {
            assert_eq!(question.domain, "ads.example.com");
            assert_eq!(question.question_end, query.len());
        }
        other => panic!("unexpected {other:?}"),
    }
    assert_eq!(plan_dns_packet(&query[..5]), Err(DnsPacketError::PacketTooShort));
}

#[test]
fn checked_queries_are_answered_or_forwarded() {
    let query = make_dns_query_packet("ads.example.com", DNS_TYPE_A);
    let question = match plan_dns_packet(&query).unwrap() {
        DnsPacketPlan::CheckDomain(question) => question,
        other => panic!("unexpected {other:?}"),
    };
    match step_for_action(&query, &question, &BlockAction::Blocked, 60).unwrap() {
        DnsEventStep::Answer(response) => assert_eq!(&response[response.len() - 4..], &[0, 0, 0, 0]),
        other => panic!("unexpected {other:?}"),
    }
    assert_eq!(
        step_for_action(&query, &question, &BlockAction::AllowedByDefault, 60),
        Ok(DnsEventStep::Forward)
    );

    let mut engine = BlockerEngine::new();
    engine.add_allow_rule("example.com", None, None).unwrap();
    let checked = engine.check_domain_with_event(&question.domain).map_err(|e| e.debug_text());
    assert_eq!(step_for_check(&query, &question, &checked, 60), Ok(DnsEventStep::Forward));
    let failed: Result<blocker::BlockEvent, String> = Err("db down".to_string());
    assert_eq!(
        step_for_check(&query, &question, &failed, 60),
        Err(DnsPacketError::Core("db down".to_string()))
    );

    let servfail = upstream_failure_response(&query, &question).unwrap();
    assert_eq!(servfail[3] & 0x0F, 2);
    assert_eq!(&servfail[6..8], &[0, 0]);
}
