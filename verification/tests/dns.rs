use blocker::dns::{
    build_block_response, build_error_response, decide_dns_query, parse_dns_question,
    DnsPacketError, DnsQueryDecision, DNS_CLASS_IN, DNS_RCODE_NXDOMAIN, DNS_TYPE_A,
    DNS_TYPE_AAAA,
};
use blocker::dns::{possible_a_answer, response_tail, summarize_dns_response};
use blocker::server::DnsServerError;
use blocker::BlockerEngine;

fn make_query_packet(domain: &str, qtype: u16) -> Vec<u8> {
    let mut packet = Vec::new();

    packet.extend_from_slice(&0x1234u16.to_be_bytes());
    packet.extend_from_slice(&0x0100u16.to_be_bytes());
    packet.extend_from_slice(&1u16.to_be_bytes());
    packet.extend_from_slice(&0u16.to_be_bytes());
    packet.extend_from_slice(&0u16.to_be_bytes());
    packet.extend_from_slice(&0u16.to_be_bytes());

    for label in domain.split('.') {
        packet.push(label.len() as u8);
        packet.extend_from_slice(label.as_bytes());
    }

    packet.push(0);
    packet.extend_from_slice(&qtype.to_be_bytes());
    packet.extend_from_slice(&DNS_CLASS_IN.to_be_bytes());

    packet
}

#[test]
fn parses_a_record_question() {
    let packet = make_query_packet("ads.example.com", DNS_TYPE_A);
    let question = parse_dns_question(&packet).unwrap();

    assert_eq!(question.domain, "ads.example.com");
    assert_eq!(question.qtype, DNS_TYPE_A);
    assert_eq!(question.qclass, DNS_CLASS_IN);
}

#[test]
fn blocked_a_query_returns_zero_ipv4_response() {
    let packet = make_query_packet("ads.example.com", DNS_TYPE_A);

    let mut engine = BlockerEngine::new();
    engine
        .add_block_rule("ads.example.com", Some("test"), Some("ad"))
        .unwrap();

    let decision = decide_dns_query(&packet, &engine, 60).unwrap();

    match decision {
        DnsQueryDecision::Block {
            domain,
            response_packet,
        } => {
            assert_eq!(domain, "ads.example.com");

            let answer_count = u16::from_be_bytes([response_packet[6], response_packet[7]]);
            assert_eq!(answer_count, 1);
            assert!(response_packet.ends_with(&[0, 0, 0, 0]));
        }
        DnsQueryDecision::Forward { .. } => {
            panic!("expected blocked DNS response");
        }
    }
}

#[test]
fn blocked_aaaa_query_returns_zero_ipv6_response() {
    let packet = make_query_packet("ads.example.com", DNS_TYPE_AAAA);

    let mut engine = BlockerEngine::new();
    engine
        .add_block_rule("ads.example.com", Some("test"), Some("ad"))
        .unwrap();

    let decision = decide_dns_query(&packet, &engine, 60).unwrap();

    match decision {
        DnsQueryDecision::Block {
            domain,
            response_packet,
        } => {
            assert_eq!(domain, "ads.example.com");

            let answer_count = u16::from_be_bytes([response_packet[6], response_packet[7]]);
            assert_eq!(answer_count, 1);

            assert!(response_packet.ends_with(&[0; 16]));
        }
        DnsQueryDecision::Forward { .. } => {
            panic!("expected blocked DNS response");
        }
    }
}

#[test]
fn allowed_query_is_forwarded() {
    let packet = make_query_packet("normal.example.com", DNS_TYPE_A);
    let engine = BlockerEngine::new();

    let decision = decide_dns_query(&packet, &engine, 60).unwrap();

    assert_eq!(
        decision,
        DnsQueryDecision::Forward {
            domain: "normal.example.com".to_string()
        }
    );
}

#[test]
fn allowlist_overrides_dns_block() {
    let packet = make_query_packet("ads.example.com", DNS_TYPE_A);

    let mut engine = BlockerEngine::new();
    engine
        .add_block_rule("ads.example.com", Some("test"), Some("ad"))
        .unwrap();
    engine
        .add_allow_rule("ads.example.com", Some("test"), Some("user"))
        .unwrap();

    let decision = decide_dns_query(&packet, &engine, 60).unwrap();

    assert_eq!(
        decision,
        DnsQueryDecision::Forward {
            domain: "ads.example.com".to_string()
        }
    );
}

#[test]
fn block_response_keeps_id_and_question() {
    let packet = make_query_packet("ads.example.com", DNS_TYPE_A);
    let question = parse_dns_question(&packet).unwrap();
    let response = build_block_response(&packet, &question, 300).unwrap();

    assert_eq!(&response[0..2], &[0x12, 0x34]);
    assert_eq!(&response[2..4], &[0x81, 0x80]);
    assert_eq!(&response[4..6], &[0, 1]);
    assert_eq!(&response[12..question.question_end], &packet[12..question.question_end]);
    let tail = &response[question.question_end..];
    assert_eq!(
        tail,
        &[0xC0, 0x0C, 0, 1, 0, 1, 0, 0, 1, 0x2C, 0, 4, 0, 0, 0, 0]
    );
}

#[test]
fn block_response_for_other_types_has_no_answer() {
    let packet = make_query_packet("ads.example.com", 16);
    let question = parse_dns_question(&packet).unwrap();
    let response = build_block_response(&packet, &question, 60).unwrap();

    assert_eq!(&response[6..8], &[0, 0]);
    assert_eq!(response.len(), question.question_end);
}

#[test]
fn error_response_carries_the_code() {
    let packet = make_query_packet("4.3.2.1.in-addr.arpa", DNS_TYPE_A);
    let question = parse_dns_question(&packet).unwrap();
    let response = build_error_response(&packet, &question, DNS_RCODE_NXDOMAIN).unwrap();

    assert_eq!(&response[2..4], &[0x81, 0x83]);
    assert_eq!(&response[6..8], &[0, 0]);
    assert_eq!(response.len(), question.question_end);
}

#[test]
fn short_packets_are_rejected() {
    assert_eq!(parse_dns_question(&[0u8; 5]), Err(DnsPacketError::PacketTooShort));
}

#[test]
fn packets_without_question_are_rejected() {
    let mut packet = make_query_packet("ads.example.com", DNS_TYPE_A);
    packet[5] = 0;
    assert_eq!(parse_dns_question(&packet), Err(DnsPacketError::NoQuestion));
}

#[test]
fn compressed_names_are_rejected() {
    let mut packet = make_query_packet("ads.example.com", DNS_TYPE_A);
    packet[12] = 0xC0;
    assert_eq!(
        parse_dns_question(&packet),
        Err(DnsPacketError::UnsupportedCompressedQuestionName)
    );
}

#[test]
fn labels_past_the_end_are_rejected() {
    let packet = make_query_packet("ads.example.com", DNS_TYPE_A);
    assert_eq!(
        parse_dns_question(&packet[..14]),
        Err(DnsPacketError::LabelOutOfBounds)
    );
}

#[test]
fn truncated_questions_are_rejected() {
    let packet = make_query_packet("ads.example.com", DNS_TYPE_A);
    let n = packet.len();
    assert_eq!(
        parse_dns_question(&packet[..n - 2]),
        Err(DnsPacketError::QuestionTooShort)
    );
    assert_eq!(
        parse_dns_question(&packet[..n - 1]),
        Err(DnsPacketError::PacketTooShort)
    );
}

#[test]
fn invalid_utf8_labels_are_rejected() {
    let mut packet = make_query_packet("ads.example.com", DNS_TYPE_A);
    packet[13] = 0xFF;
    assert_eq!(parse_dns_question(&packet), Err(DnsPacketError::InvalidLabel));
}

#[test]
fn invalid_domains_are_reported_in_debug_form() {
    let packet = make_query_packet("bad_domain-.com", DNS_TYPE_A);
    assert_eq!(
        parse_dns_question(&packet),
        Err(DnsPacketError::InvalidDomain(
            "InvalidDomain(\"bad_domain-.com\")".to_string()
        ))
    );
}

#[test]
fn response_headers_are_summarised() {
    let query = make_query_packet("ads.example.com", DNS_TYPE_A);
    let question = parse_dns_question(&query).unwrap();
    let response = build_block_response(&query, &question, 60).unwrap();
    let summary = summarize_dns_response(&response).unwrap();
    assert_eq!(summary.flags, 0x8180);
    assert_eq!(summary.rcode, 0);
    assert_eq!(summary.question_count, 1);
    assert_eq!(summary.answer_count, 1);
    assert_eq!(summary.authority_count, 0);
    assert_eq!(summary.additional_count, 0);
    assert_eq!(possible_a_answer(&response), Some((0, 0, 0, 0)));
    assert_eq!(response_tail(&response), &response[response.len() - 16..]);

    let failed = build_error_response(&query, &question, DNS_RCODE_NXDOMAIN).unwrap();
    assert_eq!(summarize_dns_response(&failed).unwrap().rcode, 3);
    assert_eq!(summarize_dns_response(&failed[..11]), None);
    assert_eq!(possible_a_answer(&[1, 2, 3]), None);
    assert_eq!(response_tail(&[1, 2, 3]), &[1, 2, 3]);
}

#[test]
fn packet_errors_have_messages() {
    assert_eq!(DnsPacketError::PacketTooShort.message(), "DNS packet is too short");
    assert_eq!(
        DnsPacketError::UnsupportedCompressedQuestionName.message(),
        "compressed DNS question names are not supported"
    );
    assert_eq!(
        DnsPacketError::InvalidDomain("x".to_string()).message(),
        "invalid domain: x"
    );
    assert_eq!(DnsPacketError::Core("boom".to_string()).message(), "blocker core error: boom");
    assert_eq!(
        DnsServerError::Packet(DnsPacketError::NoQuestion).message(),
        "DNS packet error: DNS packet has no question"
    );
    let io = DnsServerError::Io(std::io::Error::new(std::io::ErrorKind::Other, "down"));
    assert_eq!(io.message(), "I/O error: down");
}
