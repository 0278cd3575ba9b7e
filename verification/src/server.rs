//! The decisions of the DNS server: what to answer for each packet. The
//! server itself (sockets, upstream forwarding) runs around these steps.
use vstd::prelude::*;

use crate::dns::{
    build_block_response, build_error_response, bytes_result, error_response, block_response,
    is_reverse_lookup, is_reverse_lookup_domain, lemma_parse_question_end, packet_error_message,
    parse_dns_question,
    parse_question, response_result, DnsPacketError, DnsQuestion, PacketErrorView, QuestionView,
    DNS_RCODE_NXDOMAIN, DNS_RCODE_SERVFAIL,
};
use crate::event::{BlockAction, BlockEvent};
use crate::text::{append_str, string_from_chars};

verus! {

/// An I/O error of the server's sockets.
#[verifier::external_type_specification]
#[verifier::external_body]
pub struct ExIoError(std::io::Error);

/// The text of an I/O error, as its `Display` writes it (`ToString`).
/// Nothing is claimed of the text: the error is opaque here.
#[verifier::external_body]
pub(crate) fn io_error_text(e: &std::io::Error) -> String {
    e.to_string()
}

/// Why the DNS server stopped or failed on a packet.
#[derive(Debug)]
pub enum DnsServerError {
    Io(std::io::Error),
    Packet(DnsPacketError),
}

impl From<DnsPacketError> for DnsServerError {
    fn from(error: DnsPacketError) -> (r: Self) {
        DnsServerError::Packet(error)
    }
}

impl vstd::std_specs::convert::FromSpecImpl<DnsPacketError> for DnsServerError {
    open spec fn obeys_from_spec() -> bool {
        true
    }

    open spec fn from_spec(error: DnsPacketError) -> Self {
        DnsServerError::Packet(error)
    }
}

impl From<std::io::Error> for DnsServerError {
    fn from(error: std::io::Error) -> (r: Self) {
        DnsServerError::Io(error)
    }
}

impl vstd::std_specs::convert::FromSpecImpl<std::io::Error> for DnsServerError {
    open spec fn obeys_from_spec() -> bool {
        true
    }

    open spec fn from_spec(error: std::io::Error) -> Self {
        DnsServerError::Io(error)
    }
}

impl DnsServerError {
    /// The message of a server error: `I/O error: <text>`, or
    /// `DNS packet error: <message>`.
    pub fn message(&self) -> (s: String)
        ensures
            self matches DnsServerError::Packet(e) ==> s@ == "DNS packet error: "@
                + packet_error_message(e@),
            self is Io ==> "I/O error: "@.is_prefix_of(s@),
    {
        let mut out: Vec<char> = Vec::new();
        match self {
            DnsServerError::Io(e) => {
                append_str(&mut out, "I/O error: ");
                let ghost head = out@;
                append_str(&mut out, io_error_text(e).as_str());
                assert(out@.subrange(0, head.len() as int) =~= head);
            },
            DnsServerError::Packet(e) => {
                append_str(&mut out, "DNS packet error: ");
                append_str(&mut out, e.message().as_str());
            },
        }
        string_from_chars(out.as_slice())
    }
}

/// What the server does first with a packet: answer a reverse lookup with
/// `NXDOMAIN` at once, or check the question's domain.
#[derive(Debug, Clone, PartialEq, Eq)]
pub enum DnsPacketPlan {
    Answer { domain: String, response: Vec<u8> },
    CheckDomain(DnsQuestion),
}

pub enum PacketPlanView {
    Answer { domain: Seq<char>, response: Seq<u8> },
    CheckDomain(QuestionView),
}

impl View for DnsPacketPlan {
    type V = PacketPlanView;

    open spec fn view(&self) -> PacketPlanView {
        match self {
            DnsPacketPlan::Answer { domain, response } => PacketPlanView::Answer {
                domain: domain@,
                response: response@,
            },
            DnsPacketPlan::CheckDomain(q) => PacketPlanView::CheckDomain(q@),
        }
    }
}

/// The plan for a packet.
pub open spec fn packet_plan(p: Seq<u8>) -> Result<PacketPlanView, PacketErrorView> {
    match parse_question(p) {
        Err(e) => Err(e),
        Ok(q) => if is_reverse_lookup(q.domain) {
            match response_result(p, q, error_response(p, q, DNS_RCODE_NXDOMAIN)) {
                Ok(r) => Ok(PacketPlanView::Answer { domain: q.domain, response: r }),
                Err(e) => Err(e),
            }
        } else {
            Ok(PacketPlanView::CheckDomain(q))
        },
    }
}

/// Reads the question of a packet and decides the first step.
pub fn plan_dns_packet(query_packet: &[u8]) -> (r: Result<DnsPacketPlan, DnsPacketError>)
    ensures
        match packet_plan(query_packet@) {
            Ok(plan) => r is Ok && r->Ok_0@ == plan,
            Err(e) => r is Err && r->Err_0@ == e,
        },
        r matches Ok(DnsPacketPlan::CheckDomain(q)) ==> 12 < q.question_end <= query_packet@.len(),
{
    let question = parse_dns_question(query_packet)?;
    proof {
        lemma_parse_question_end(query_packet@);
    }
    if is_reverse_lookup_domain(question.domain.as_str()) {
        let response = build_error_response(query_packet, &question, DNS_RCODE_NXDOMAIN)?;
        return Ok(DnsPacketPlan::Answer { domain: question.domain, response });
    }
    Ok(DnsPacketPlan::CheckDomain(question))
}

/// What the server does once the domain was checked: answer a blocked domain,
/// forward any other query upstream.
#[derive(Debug, Clone, PartialEq, Eq)]
pub enum DnsEventStep {
    Answer(Vec<u8>),
    Forward,
}

/// The step for the action that the check decided.
pub open spec fn event_step(
    p: Seq<u8>,
    q: QuestionView,
    action: BlockAction,
    ttl: u32,
) -> Result<Option<Seq<u8>>, PacketErrorView> {
    match action {
        BlockAction::Blocked => match response_result(p, q, block_response(p, q, ttl)) {
            Ok(r) => Ok(Some(r)),
            Err(e) => Err(e),
        },
        _ => Ok(None),
    }
}

/// Decides the step for a checked query.
pub fn step_for_action(
    query_packet: &[u8],
    question: &DnsQuestion,
    action: &BlockAction,
    blocked_ttl_seconds: u32,
) -> (r: Result<DnsEventStep, DnsPacketError>)
    requires
        query_packet@.len() >= 12 && question.question_end <= query_packet@.len() ==> 12
            <= question.question_end,
    ensures
        match event_step(query_packet@, question@, *action, blocked_ttl_seconds) {
            Ok(Some(resp)) => r matches Ok(DnsEventStep::Answer(p)) && p@ == resp,
            Ok(None) => r matches Ok(DnsEventStep::Forward),
            Err(e) => r is Err && r->Err_0@ == e,
        },
{
    match action {
        BlockAction::Blocked => {
            let response = build_block_response(query_packet, question, blocked_ttl_seconds)?;
            Ok(DnsEventStep::Answer(response))
        },
        BlockAction::AllowedByUserRule | BlockAction::AllowedByDefault => Ok(DnsEventStep::Forward),
    }
}

/// Decides the step for a query from what the domain check gave: a failed
/// check fails the packet with `Core(message)`; else the event's action
/// decides.
pub fn step_for_check(
    query_packet: &[u8],
    question: &DnsQuestion,
    checked: &Result<BlockEvent, String>,
    blocked_ttl_seconds: u32,
) -> (r: Result<DnsEventStep, DnsPacketError>)
    requires
        query_packet@.len() >= 12 && question.question_end <= query_packet@.len() ==> 12
            <= question.question_end,
    ensures
        match checked {
            Err(m) => r matches Err(DnsPacketError::Core(x)) && x@ == m@,
            Ok(ev) => match event_step(query_packet@, question@, ev.action, blocked_ttl_seconds) {
                Ok(Some(resp)) => r matches Ok(DnsEventStep::Answer(p)) && p@ == resp,
                Ok(None) => r matches Ok(DnsEventStep::Forward),
                Err(e) => r is Err && r->Err_0@ == e,
            },
        },
{
    match checked {
        Err(m) => Err(DnsPacketError::Core(m.clone())),
        Ok(ev) => step_for_action(query_packet, question, &ev.action, blocked_ttl_seconds),
    }
}

/// The answer when the upstream server did not reply: `SERVFAIL`.
pub fn upstream_failure_response(query_packet: &[u8], question: &DnsQuestion) -> (r: Result<
    Vec<u8>,
    DnsPacketError,
>)
    requires
        query_packet@.len() >= 12 && question.question_end <= query_packet@.len() ==> 12
            <= question.question_end,
    ensures
        bytes_result(r) == response_result(
            query_packet@,
            question@,
            error_response(query_packet@, question@, DNS_RCODE_SERVFAIL),
        ),
{
    build_error_response(query_packet, question, DNS_RCODE_SERVFAIL)
}

} // verus!
