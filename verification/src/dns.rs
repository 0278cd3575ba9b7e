//! DNS packets: reading the question of a query, deciding on it with the
//! engine, and building the answers that block a domain or report an error.
use vstd::prelude::*;
use vstd::utf8::{
    decode_utf8, encode_scalar, encode_utf8, encode_utf8_decode_utf8, encode_utf8_valid_utf8,
    has_width_1_encoding, is_ascii_chars, is_ascii_chars_encode_utf8, valid_utf8,
};

use crate::api::split_from;

use crate::domain::{
    law_normalize_idempotent, lemma_normalized_is_canonical, normalize, normalize_range, run_len,
    valid_at, valid_domain,
};
use crate::engine::{check, BlockDecision, BlockerEngine, DecisionView};
use crate::error::{error_debug, BlockerErrorView};
use crate::text::{ends_with, ends_with_range, string_from_chars};

verus! {

pub const DNS_TYPE_A: u16 = 1;

pub const DNS_TYPE_AAAA: u16 = 28;

pub const DNS_CLASS_IN: u16 = 1;

pub const DNS_RCODE_SERVFAIL: u16 = 2;

pub const DNS_RCODE_NXDOMAIN: u16 = 3;

/// The question of a DNS query: the normalised domain, its type and class,
/// and where the question ends in the packet.
#[derive(Debug, Clone, PartialEq, Eq)]
pub struct DnsQuestion {
    pub domain: String,
    pub qtype: u16,
    pub qclass: u16,
    pub question_end: usize,
}

/// What to do with a query: forward it upstream, or answer it with the given
/// packet.
#[derive(Debug, Clone, PartialEq, Eq)]
pub enum DnsQueryDecision {
    Forward { domain: String },
    Block { domain: String, response_packet: Vec<u8> },
}

/// Why a DNS packet could not be handled.
#[derive(Debug, Clone, PartialEq, Eq)]
pub enum DnsPacketError {
    PacketTooShort,
    NoQuestion,
    LabelOutOfBounds,
    QuestionTooShort,
    InvalidLabel,
    InvalidDomain(String),
    UnsupportedCompressedQuestionName,
    Core(String),
}

pub enum PacketErrorView {
    PacketTooShort,
    NoQuestion,
    LabelOutOfBounds,
    QuestionTooShort,
    InvalidLabel,
    InvalidDomain(Seq<char>),
    UnsupportedCompressedQuestionName,
    Core(Seq<char>),
}

impl View for DnsPacketError {
    type V = PacketErrorView;

    open spec fn view(&self) -> PacketErrorView {
        match self {
            DnsPacketError::PacketTooShort => PacketErrorView::PacketTooShort,
            DnsPacketError::NoQuestion => PacketErrorView::NoQuestion,
            DnsPacketError::LabelOutOfBounds => PacketErrorView::LabelOutOfBounds,
            DnsPacketError::QuestionTooShort => PacketErrorView::QuestionTooShort,
            DnsPacketError::InvalidLabel => PacketErrorView::InvalidLabel,
            DnsPacketError::InvalidDomain(s) => PacketErrorView::InvalidDomain(s@),
            DnsPacketError::UnsupportedCompressedQuestionName => PacketErrorView::UnsupportedCompressedQuestionName,
            DnsPacketError::Core(s) => PacketErrorView::Core(s@),
        }
    }
}

/// The human-readable message of a packet error.
pub open spec fn packet_error_message(e: PacketErrorView) -> Seq<char> {
    match e {
        PacketErrorView::PacketTooShort => "DNS packet is too short"@,
        PacketErrorView::NoQuestion => "DNS packet has no question"@,
        PacketErrorView::LabelOutOfBounds => "DNS label is out of bounds"@,
        PacketErrorView::QuestionTooShort => "DNS question is too short"@,
        PacketErrorView::InvalidLabel => "DNS label is invalid"@,
        PacketErrorView::InvalidDomain(d) => "invalid domain: "@ + d,
        PacketErrorView::UnsupportedCompressedQuestionName => "compressed DNS question names are not supported"@,
        PacketErrorView::Core(m) => "blocker core error: "@ + m,
    }
}

impl DnsPacketError {
    /// The message of this error, such as "DNS packet is too short".
    pub fn message(&self) -> (s: String)
        ensures
            s@ == packet_error_message(self@),
    {
        match self {
            DnsPacketError::PacketTooShort => "DNS packet is too short".to_owned(),
            DnsPacketError::NoQuestion => "DNS packet has no question".to_owned(),
            DnsPacketError::LabelOutOfBounds => "DNS label is out of bounds".to_owned(),
            DnsPacketError::QuestionTooShort => "DNS question is too short".to_owned(),
            DnsPacketError::InvalidLabel => "DNS label is invalid".to_owned(),
            DnsPacketError::InvalidDomain(d) => {
                let mut out: Vec<char> = Vec::new();
                crate::text::append_str(&mut out, "invalid domain: ");
                crate::text::append_str(&mut out, d.as_str());
                string_from_chars(out.as_slice())
            },
            DnsPacketError::UnsupportedCompressedQuestionName => "compressed DNS question names are not supported".to_owned(),
            DnsPacketError::Core(m) => {
                let mut out: Vec<char> = Vec::new();
                crate::text::append_str(&mut out, "blocker core error: ");
                crate::text::append_str(&mut out, m.as_str());
                string_from_chars(out.as_slice())
            },
        }
    }
}

pub struct QuestionView {
    pub domain: Seq<char>,
    pub qtype: u16,
    pub qclass: u16,
    pub question_end: int,
}

impl View for DnsQuestion {
    type V = QuestionView;

    open spec fn view(&self) -> QuestionView {
        QuestionView {
            domain: self.domain@,
            qtype: self.qtype,
            qclass: self.qclass,
            question_end: self.question_end as int,
        }
    }
}

pub enum QueryDecisionView {
    Forward { domain: Seq<char> },
    Block { domain: Seq<char>, response_packet: Seq<u8> },
}

impl View for DnsQueryDecision {
    type V = QueryDecisionView;

    open spec fn view(&self) -> QueryDecisionView {
        match self {
            DnsQueryDecision::Forward { domain } => QueryDecisionView::Forward { domain: domain@ },
            DnsQueryDecision::Block { domain, response_packet } => QueryDecisionView::Block {
                domain: domain@,
                response_packet: response_packet@,
            },
        }
    }
}

// ---------------------------------------------------------------------------
// Bytes
// ---------------------------------------------------------------------------

/// A big-endian 16-bit number.
pub open spec fn be16(hi: u8, lo: u8) -> u16 {
    (hi as int * 256 + lo as int) as u16
}

/// The big-endian bytes of a 16-bit number.
pub open spec fn u16_be(x: u16) -> Seq<u8> {
    seq![(x / 256) as u8, (x % 256) as u8]
}

/// The big-endian bytes of a 32-bit number.
pub open spec fn u32_be(x: u32) -> Seq<u8> {
    seq![
        (x / 0x100_0000) as u8,
        ((x / 0x1_0000) % 256) as u8,
        ((x / 256) % 256) as u8,
        (x % 256) as u8,
    ]
}

fn push_u16_be(out: &mut Vec<u8>, x: u16)
    ensures
        final(out)@ == old(out)@ + u16_be(x),
{
    out.push((x / 256) as u8);
    out.push((x % 256) as u8);
    assert(final(out)@ =~= old(out)@ + u16_be(x));
}

fn push_u32_be(out: &mut Vec<u8>, x: u32)
    ensures
        final(out)@ == old(out)@ + u32_be(x),
{
    out.push((x / 0x100_0000) as u8);
    out.push(((x / 0x1_0000) % 256) as u8);
    out.push(((x / 256) % 256) as u8);
    out.push((x % 256) as u8);
    assert(final(out)@ =~= old(out)@ + u32_be(x));
}

fn push_bytes(out: &mut Vec<u8>, p: &[u8], lo: usize, hi: usize)
    requires
        lo <= hi <= p@.len(),
    ensures
        final(out)@ == old(out)@ + p@.subrange(lo as int, hi as int),
{
    let mut i = lo;
    while i < hi
        invariant
            lo <= i <= hi <= p@.len(),
            out@ == old(out)@ + p@.subrange(lo as int, i as int),
        decreases hi - i,
    {
        out.push(p[i]);
        i = i + 1;
        assert(p@.subrange(lo as int, i as int) =~= p@.subrange(lo as int, i - 1).push(p@[i - 1]));
    }
}

/// Reads a big-endian 16-bit number at `offset`.
fn read_u16(packet: &[u8], offset: usize) -> (r: Result<u16, DnsPacketError>)
    ensures
        offset + 2 <= packet@.len() ==> r == Ok::<u16, DnsPacketError>(
            be16(packet@[offset as int], packet@[offset + 1]),
        ),
        offset + 2 > packet@.len() ==> r == Err::<u16, DnsPacketError>(
            DnsPacketError::PacketTooShort,
        ),
{
    if offset > packet.len() || packet.len() - offset < 2 {
        return Err(DnsPacketError::PacketTooShort);
    }
    let hi = packet[offset] as u16;
    let lo = packet[offset + 1] as u16;
    Ok(hi * 256 + lo)
}

// ---------------------------------------------------------------------------
// Questions
// ---------------------------------------------------------------------------

/// The labels of a question name from `offset` on, and the offset after the
/// name's final zero byte.
pub open spec fn parse_labels(p: Seq<u8>, offset: int) -> Result<
    (Seq<Seq<char>>, int),
    PacketErrorView,
>
    decreases p.len() - offset,
{
    if offset < 0 || offset >= p.len() {
        Err(PacketErrorView::LabelOutOfBounds)
    } else {
        let len = p[offset] as int;
        if len == 0 {
            Ok((Seq::empty(), offset + 1))
        } else if len >= 64 {
            // One of the two top bits is set: a compression pointer.
            Err(PacketErrorView::UnsupportedCompressedQuestionName)
        } else if offset + 1 + len > p.len() {
            Err(PacketErrorView::LabelOutOfBounds)
        } else if !valid_utf8(p.subrange(offset + 1, offset + 1 + len)) {
            Err(PacketErrorView::InvalidLabel)
        } else {
            match parse_labels(p, offset + 1 + len) {
                Ok((labels, end)) => Ok(
                    (
                        seq![decode_utf8(p.subrange(offset + 1, offset + 1 + len))] + labels,
                        end,
                    ),
                ),
                Err(e) => Err(e),
            }
        }
    }
}

/// The labels joined with `.`.
pub open spec fn join_labels(labels: Seq<Seq<char>>) -> Seq<char>
    decreases labels.len(),
{
    if labels.len() == 0 {
        Seq::empty()
    } else if labels.len() == 1 {
        labels[0]
    } else {
        labels[0] + seq!['.'] + join_labels(labels.drop_first())
    }
}

/// What reading the question of a packet gives.
pub open spec fn parse_question(p: Seq<u8>) -> Result<QuestionView, PacketErrorView> {
    if p.len() < 12 {
        Err(PacketErrorView::PacketTooShort)
    } else if be16(p[4], p[5]) == 0 {
        Err(PacketErrorView::NoQuestion)
    } else {
        match parse_labels(p, 12) {
            Err(e) => Err(e),
            Ok((labels, off)) => if off + 3 > p.len() {
                Err(PacketErrorView::QuestionTooShort)
            } else if off + 4 > p.len() {
                Err(PacketErrorView::PacketTooShort)
            } else {
                match normalize(join_labels(labels)) {
                    Ok(d) => Ok(
                        QuestionView {
                            domain: d,
                            qtype: be16(p[off], p[off + 1]),
                            qclass: be16(p[off + 2], p[off + 3]),
                            question_end: off + 4,
                        },
                    ),
                    Err(e) => Err(PacketErrorView::InvalidDomain(error_debug(e))),
                }
            },
        }
    }
}

/// Decodes bytes as UTF-8 (`std::str::from_utf8`): the text when the bytes are
/// valid UTF-8, else nothing.
#[verifier::external_body]
fn utf8_to_string(bytes: &[u8]) -> (r: Option<String>)
    ensures
        r is Some <==> valid_utf8(bytes@),
        r matches Some(s) ==> s@ == decode_utf8(bytes@),
{
    match std::str::from_utf8(bytes) {
        Ok(s) => Some(s.to_owned()),
        Err(_) => None,
    }
}

proof fn lemma_parse_labels_end(p: Seq<u8>, offset: int)
    ensures
        parse_labels(p, offset) matches Ok((_, end)) ==> offset < end <= p.len(),
    decreases p.len() - offset,
{
    if offset < 0 || offset >= p.len() {
    } else {
        let len = p[offset] as int;
        if len == 0 {
        } else if len >= 64 {
        } else if offset + 1 + len > p.len() {
        } else if !valid_utf8(p.subrange(offset + 1, offset + 1 + len)) {
        } else {
            lemma_parse_labels_end(p, offset + 1 + len);
        }
    }
}

/// Joins labels with `.` into a character vector.
fn join_labels_exec(labels: &Vec<String>) -> (r: Vec<char>)
    ensures
        r@ == join_labels(labels@.map_values(|l: String| l@)),
{
    let ghost ls = labels@.map_values(|l: String| l@);
    let mut out: Vec<char> = Vec::new();
    let n = labels.len();
    if n == 0 {
        return out;
    }
    // Built from the back: out == join(ls.skip(i)).
    let mut i = n - 1;
    crate::text::append_str(&mut out, labels[i].as_str());
    assert(ls.skip(i as int) =~= seq![ls[i as int]]);
    while i > 0
        invariant
            0 <= i < n == labels@.len(),
            ls == labels@.map_values(|l: String| l@),
            out@ == join_labels(ls.skip(i as int)),
        decreases i,
    {
        let mut next: Vec<char> = Vec::new();
        crate::text::append_str(&mut next, labels[i - 1].as_str());
        next.push('.');
        crate::text::append_chars(&mut next, out.as_slice());
        assert(ls.skip(i - 1).drop_first() =~= ls.skip(i as int));
        assert(ls.skip(i - 1)[0] == ls[i - 1]);
        out = next;
        i = i - 1;
    }
    assert(ls.skip(0) =~= ls);
    out
}

/// Reads the question of a DNS query: the name (uncompressed, as labels), its
/// type and class. The name is normalised.
pub fn parse_dns_question(packet: &[u8]) -> (r: Result<DnsQuestion, DnsPacketError>)
    ensures
        match parse_question(packet@) {
            Ok(q) => r is Ok && r->Ok_0@ == q,
            Err(e) => r is Err && r->Err_0@ == e,
        },
{
    let ghost p = packet@;
    if packet.len() < 12 {
        return Err(DnsPacketError::PacketTooShort);
    }
    let question_count = read_u16(packet, 4)?;
    if question_count == 0 {
        return Err(DnsPacketError::NoQuestion);
    }
    let mut offset: usize = 12;
    let mut labels: Vec<String> = Vec::new();
    loop
        invariant_except_break
            parse_labels(p, 12) == match parse_labels(p, offset as int) {
                Ok((rest, end)) => Ok((labels@.map_values(|l: String| l@) + rest, end)),
                Err(e) => Err::<(Seq<Seq<char>>, int), PacketErrorView>(e),
            },
        invariant
            p == packet@,
            12 <= offset,
            p.len() >= 12,
            be16(p[4], p[5]) != 0,
        ensures
            parse_labels(p, 12) == Ok::<(Seq<Seq<char>>, int), PacketErrorView>(
                (labels@.map_values(|l: String| l@), offset as int),
            ),
        decreases packet@.len() - offset,
    {
        if offset >= packet.len() {
            return Err(DnsPacketError::LabelOutOfBounds);
        }
        let length = packet[offset];
        offset = offset + 1;
        if length == 0 {
            assert(labels@.map_values(|l: String| l@) + Seq::<Seq<char>>::empty() =~= labels@.map_values(
                |l: String| l@,
            ));
            break ;
        }
        if length >= 64 {
            return Err(DnsPacketError::UnsupportedCompressedQuestionName);
        }
        let label_length = length as usize;
        if label_length > packet.len() - offset {
            return Err(DnsPacketError::LabelOutOfBounds);
        }
        let label_end = offset + label_length;
        let label_bytes = vstd::slice::slice_subrange(packet, offset, label_end);
        let label = match utf8_to_string(label_bytes) {
            Some(l) => l,
            None => return Err(DnsPacketError::InvalidLabel),
        };
        let ghost before = labels@.map_values(|l: String| l@);
        let ghost lv = label@;
        labels.push(label);
        assert(labels@.map_values(|l: String| l@) =~= before.push(lv));
        proof {
            let rest_end = parse_labels(p, label_end as int);
            match rest_end {
                Ok((rest, end)) => {
                    assert(before + (seq![lv] + rest) =~= before.push(lv) + rest);
                },
                Err(_) => {},
            }
        }
        offset = label_end;
    }
    let ghost names = labels@.map_values(|l: String| l@);
    assert(parse_labels(p, 12) == Ok::<(Seq<Seq<char>>, int), PacketErrorView>((names, offset as int)));
    if offset > packet.len() || packet.len() - offset < 3 {
        return Err(DnsPacketError::QuestionTooShort);
    }
    let qtype = read_u16(packet, offset)?;
    let qclass = read_u16(packet, offset + 2)?;
    let question_end = offset + 4;
    let joined = join_labels_exec(&labels);
    match normalize_range(joined.as_slice(), 0, joined.len()) {
        Ok(d) => {
            assert(joined@.subrange(0, joined@.len() as int) =~= joined@);
            Ok(DnsQuestion { domain: string_from_chars(d.as_slice()), qtype, qclass, question_end })
        },
        Err(e) => {
            assert(joined@.subrange(0, joined@.len() as int) =~= joined@);
            Err(DnsPacketError::InvalidDomain(e.debug_text()))
        },
    }
}

// ---------------------------------------------------------------------------
// Responses
// ---------------------------------------------------------------------------

/// The address data of a blocking answer: `0.0.0.0` for `A`, `::` for
/// `AAAA`, none for other types.
pub open spec fn answer_data(qtype: u16) -> Option<Seq<u8>> {
    if qtype == DNS_TYPE_A {
        Some(Seq::new(4, |i: int| 0u8))
    } else if qtype == DNS_TYPE_AAAA {
        Some(Seq::new(16, |i: int| 0u8))
    } else {
        None
    }
}

/// The header and question of a response: the query's id, the given flags,
/// one question, `ancount` answers, no other records, and the query's
/// question.
pub open spec fn response_head(q: Seq<u8>, flags: u16, ancount: u16, question_end: int) -> Seq<
    u8,
> {
    q.subrange(0, 2) + u16_be(flags) + u16_be(1) + u16_be(ancount) + u16_be(0) + u16_be(0)
        + q.subrange(12, question_end)
}

/// The recursion-desired bit of the query's flags.
pub open spec fn recursion_desired(q: Seq<u8>) -> u16 {
    be16(q[2], q[3]) & 0x0100
}

/// The packet that blocks a query: a response (`QR`, `RA`, the query's `RD`)
/// with the query's question and, for `A` and `AAAA`, one answer pointing the
/// name at the zero address with the given time to live.
pub open spec fn block_response(q: Seq<u8>, question: QuestionView, ttl: u32) -> Seq<u8> {
    let flags = (0x8000u16 | 0x0080u16 | recursion_desired(q)) as u16;
    match answer_data(question.qtype) {
        Some(data) => response_head(q, flags, 1, question.question_end) + seq![0xC0u8, 0x0Cu8]
            + u16_be(question.qtype) + u16_be(question.qclass) + u32_be(ttl) + u16_be(
            data.len() as u16,
        ) + data,
        None => response_head(q, flags, 0, question.question_end),
    }
}

/// The packet that answers a query with an error code and no records.
pub open spec fn error_response(q: Seq<u8>, question: QuestionView, code: u16) -> Seq<u8> {
    let flags = (0x8000u16 | 0x0080u16 | recursion_desired(q) | (code & 0x000F)) as u16;
    response_head(q, flags, 0, question.question_end)
}

/// The outcome of building a response from a query and its question.
pub open spec fn response_result(
    q: Seq<u8>,
    question: QuestionView,
    body: Seq<u8>,
) -> Result<Seq<u8>, PacketErrorView> {
    if q.len() < 12 {
        Err(PacketErrorView::PacketTooShort)
    } else if question.question_end > q.len() {
        Err(PacketErrorView::QuestionTooShort)
    } else {
        Ok(body)
    }
}

/// A byte vector result by its view.
pub open spec fn bytes_result(r: Result<Vec<u8>, DnsPacketError>) -> Result<Seq<u8>, PacketErrorView> {
    match r {
        Ok(v) => Ok(v@),
        Err(e) => Err(e@),
    }
}

fn push_head(
    out: &mut Vec<u8>,
    query_packet: &[u8],
    flags: u16,
    ancount: u16,
    question_end: usize,
)
    requires
        old(out)@.len() == 0,
        12 <= question_end <= query_packet@.len(),
    ensures
        final(out)@ == response_head(query_packet@, flags, ancount, question_end as int),
{
    push_bytes(out, query_packet, 0, 2);
    push_u16_be(out, flags);
    push_u16_be(out, 1);
    push_u16_be(out, ancount);
    push_u16_be(out, 0);
    push_u16_be(out, 0);
    push_bytes(out, query_packet, 12, question_end);
    assert(final(out)@ =~= response_head(query_packet@, flags, ancount, question_end as int));
}

/// Builds the packet that blocks a query.
pub fn build_block_response(query_packet: &[u8], question: &DnsQuestion, ttl_seconds: u32) -> (r:
    Result<Vec<u8>, DnsPacketError>)
    requires
        query_packet@.len() >= 12 && question.question_end <= query_packet@.len() ==> 12
            <= question.question_end,
    ensures
        bytes_result(r) == response_result(
            query_packet@,
            question@,
            block_response(query_packet@, question@, ttl_seconds),
        ),
{
    if query_packet.len() < 12 {
        return Err(DnsPacketError::PacketTooShort);
    }
    if question.question_end > query_packet.len() {
        return Err(DnsPacketError::QuestionTooShort);
    }
    let query_flags = read_u16(query_packet, 2)?;
    let recursion_desired = query_flags & 0x0100;
    let response_flags: u16 = 0x8000 | 0x0080 | recursion_desired;
    let answer_len: usize = if question.qtype == DNS_TYPE_A {
        4
    } else if question.qtype == DNS_TYPE_AAAA {
        16
    } else {
        0
    };
    let answer_count: u16 = if answer_len > 0 {
        1
    } else {
        0
    };
    let mut response: Vec<u8> = Vec::new();
    push_head(&mut response, query_packet, response_flags, answer_count, question.question_end);
    if answer_len > 0 {
        let ghost head = response@;
        response.push(0xC0);
        response.push(0x0C);
        push_u16_be(&mut response, question.qtype);
        push_u16_be(&mut response, question.qclass);
        push_u32_be(&mut response, ttl_seconds);
        push_u16_be(&mut response, answer_len as u16);
        let ghost before_data = response@;
        let mut i: usize = 0;
        while i < answer_len
            invariant
                i <= answer_len,
                answer_len == 4 || answer_len == 16,
                response@ == before_data + Seq::new(i as nat, |k: int| 0u8),
            decreases answer_len - i,
        {
            response.push(0);
            i = i + 1;
            assert(response@ =~= before_data + Seq::new(i as nat, |k: int| 0u8));
        }
        proof {
            let data = answer_data(question.qtype)->Some_0;
            assert(data =~= Seq::new(answer_len as nat, |k: int| 0u8));
            assert(response@ =~= head + seq![0xC0u8, 0x0Cu8] + u16_be(question.qtype) + u16_be(
                question.qclass,
            ) + u32_be(ttl_seconds) + u16_be(data.len() as u16) + data);
        }
    }
    Ok(response)
}

/// Builds the packet that answers a query with an error code.
pub fn build_error_response(query_packet: &[u8], question: &DnsQuestion, response_code: u16) -> (r:
    Result<Vec<u8>, DnsPacketError>)
    requires
        query_packet@.len() >= 12 && question.question_end <= query_packet@.len() ==> 12
            <= question.question_end,
    ensures
        bytes_result(r) == response_result(
            query_packet@,
            question@,
            error_response(query_packet@, question@, response_code),
        ),
{
    if query_packet.len() < 12 {
        return Err(DnsPacketError::PacketTooShort);
    }
    if question.question_end > query_packet.len() {
        return Err(DnsPacketError::QuestionTooShort);
    }
    let query_flags = read_u16(query_packet, 2)?;
    let recursion_desired = query_flags & 0x0100;
    let response_flags: u16 = 0x8000 | 0x0080 | recursion_desired | (response_code & 0x000F);
    let mut response: Vec<u8> = Vec::new();
    push_head(&mut response, query_packet, response_flags, 0, question.question_end);
    Ok(response)
}

/// A question read from a packet ends after the header and within the packet.
pub proof fn lemma_parse_question_end(p: Seq<u8>)
    ensures
        parse_question(p) matches Ok(q) ==> 12 < q.question_end <= p.len(),
{
    lemma_parse_labels_end(p, 12);
}

/// Reading a name looks only at the name's own bytes: a packet that agrees
/// on them reads the same.
proof fn lemma_parse_labels_same_bytes(p: Seq<u8>, p2: Seq<u8>, offset: int)
    requires
        parse_labels(p, offset) is Ok,
        parse_labels(p, offset)->Ok_0.1 <= p2.len(),
        forall|k: int|
            offset <= k < parse_labels(p, offset)->Ok_0.1 ==> #[trigger] p2[k] == p[k],
    ensures
        parse_labels(p2, offset) == parse_labels(p, offset),
    decreases p.len() - offset,
{
    lemma_parse_labels_end(p, offset);
    let len = p[offset] as int;
    assert(p2[offset] == p[offset]);
    if len != 0 && len < 64 {
        let next = offset + 1 + len;
        lemma_parse_labels_end(p, next);
        assert(p2.subrange(offset + 1, next) =~= p.subrange(offset + 1, next)) by {
            assert forall|k: int| 0 <= k < len implies #[trigger] p2.subrange(offset + 1, next)[k]
                == p.subrange(offset + 1, next)[k] by {
                assert(p2[offset + 1 + k] == p[offset + 1 + k]);
            }
        }
        lemma_parse_labels_same_bytes(p, p2, next);
    }
}

/// A response read as a query gives back the question that it answers: its
/// header counts one question, and the question's bytes are the query's.
proof fn lemma_response_keeps_question(
    q: Seq<u8>,
    question: QuestionView,
    flags: u16,
    ancount: u16,
    tail: Seq<u8>,
)
    requires
        parse_question(q) == Ok::<QuestionView, PacketErrorView>(question),
    ensures
        parse_question(response_head(q, flags, ancount, question.question_end) + tail) == Ok::<
            QuestionView,
            PacketErrorView,
        >(question),
{
    lemma_parse_labels_end(q, 12);
    let end = question.question_end;
    let head = response_head(q, flags, ancount, end);
    let r = head + tail;
    assert(head.len() == end);
    assert forall|k: int| 12 <= k < end implies #[trigger] r[k] == q[k] by {
        assert(r[k] == head[k]);
        assert(head[k] == q.subrange(12, end)[k - 12]);
    }
    assert(r[4] == 0 && r[5] == 1) by {
        assert(r[4] == head[4] && r[5] == head[5]);
    }
    let off = parse_labels(q, 12)->Ok_0.1;
    lemma_parse_labels_same_bytes(q, r, 12);
    assert(r[off] == q[off] && r[off + 1] == q[off + 1]);
    assert(r[off + 2] == q[off + 2] && r[off + 3] == q[off + 3]);
}

/// A blocking answer, and an error answer, carry the question they answer:
/// read as a query, each gives back the query's question.
pub proof fn law_responses_keep_question(q: Seq<u8>, question: QuestionView, ttl: u32, code: u16)
    requires
        parse_question(q) == Ok::<QuestionView, PacketErrorView>(question),
    ensures
        parse_question(block_response(q, question, ttl)) == Ok::<QuestionView, PacketErrorView>(
            question,
        ),
        parse_question(error_response(q, question, code)) == Ok::<QuestionView, PacketErrorView>(
            question,
        ),
{
    let flags = (0x8000u16 | 0x0080u16 | recursion_desired(q)) as u16;
    let end = question.question_end;
    match answer_data(question.qtype) {
        Some(data) => {
            let tail = seq![0xC0u8, 0x0Cu8] + u16_be(question.qtype) + u16_be(question.qclass)
                + u32_be(ttl) + u16_be(data.len() as u16) + data;
            lemma_response_keeps_question(q, question, flags, 1, tail);
            assert(block_response(q, question, ttl) =~= response_head(q, flags, 1, end) + tail);
        },
        None => {
            lemma_response_keeps_question(q, question, flags, 0, Seq::empty());
            assert(block_response(q, question, ttl) =~= response_head(q, flags, 0, end)
                + Seq::<u8>::empty());
        },
    }
    let eflags = (0x8000u16 | 0x0080u16 | recursion_desired(q) | (code & 0x000F)) as u16;
    lemma_response_keeps_question(q, question, eflags, 0, Seq::empty());
    assert(error_response(q, question, code) =~= response_head(q, eflags, 0, end)
        + Seq::<u8>::empty());
}

// ---------------------------------------------------------------------------
// Deciding on a query
// ---------------------------------------------------------------------------

/// What deciding on a query packet gives.
pub open spec fn decide_query(
    p: Seq<u8>,
    blocklist: Seq<crate::rule::RuleView>,
    allowlist: Seq<crate::rule::RuleView>,
    ttl: u32,
) -> Result<QueryDecisionView, PacketErrorView> {
    match parse_question(p) {
        Err(e) => Err(e),
        Ok(q) => match check(blocklist, allowlist, q.domain) {
            Err(e) => Err(PacketErrorView::Core(error_debug(e))),
            Ok(DecisionView::Blocked { .. }) => match response_result(
                p,
                q,
                block_response(p, q, ttl),
            ) {
                Ok(resp) => Ok(QueryDecisionView::Block { domain: q.domain, response_packet: resp }),
                Err(e) => Err(e),
            },
            Ok(_) => Ok(QueryDecisionView::Forward { domain: q.domain }),
        },
    }
}

/// Decides on a DNS query: a blocked domain gets a blocking answer, any other
/// is forwarded.
pub fn decide_dns_query(packet: &[u8], engine: &BlockerEngine, blocked_ttl_seconds: u32) -> (r:
    Result<DnsQueryDecision, DnsPacketError>)
    ensures
        match decide_query(packet@, engine@.blocklist, engine@.allowlist, blocked_ttl_seconds) {
            Ok(d) => r is Ok && r->Ok_0@ == d,
            Err(e) => r is Err && r->Err_0@ == e,
        },
{
    let question = parse_dns_question(packet)?;
    proof {
        lemma_parse_question_end(packet@);
    }
    let decision = match engine.check_domain(question.domain.as_str()) {
        Ok(d) => d,
        Err(e) => return Err(DnsPacketError::Core(e.debug_text())),
    };
    match decision {
        BlockDecision::Blocked { .. } => {
            let response_packet = build_block_response(packet, &question, blocked_ttl_seconds)?;
            Ok(DnsQueryDecision::Block { domain: question.domain, response_packet })
        },
        BlockDecision::Allowed { .. } | BlockDecision::AllowedByDefault => {
            Ok(DnsQueryDecision::Forward { domain: question.domain })
        },
    }
}

/// A reverse lookup name (`.in-addr.arpa` or `.ip6.arpa`).
pub open spec fn is_reverse_lookup(d: Seq<char>) -> bool {
    ends_with(d, ".in-addr.arpa"@) || ends_with(d, ".ip6.arpa"@)
}

/// Is the domain a reverse lookup name?
pub fn is_reverse_lookup_domain(domain: &str) -> (b: bool)
    ensures
        b == is_reverse_lookup(domain@),
{
    let v = crate::text::chars_of(domain);
    let a = crate::text::chars_of(".in-addr.arpa");
    let b = crate::text::chars_of(".ip6.arpa");
    assert(v@.subrange(0, v@.len() as int) =~= v@);
    ends_with_range(v.as_slice(), 0, v.len(), a.as_slice()) || ends_with_range(
        v.as_slice(),
        0,
        v.len(),
        b.as_slice(),
    )
}

// ---------------------------------------------------------------------------
// Queries
// ---------------------------------------------------------------------------

/// The labels of a name as a question writes them: each label's length (kept
/// to its low eight bits), then its bytes.
pub open spec fn label_bytes(labels: Seq<Seq<u8>>) -> Seq<u8>
    decreases labels.len(),
{
    if labels.len() == 0 {
        Seq::empty()
    } else {
        label_bytes(labels.drop_last()) + seq![labels.last().len() as u8] + labels.last()
    }
}

/// The header of a probe query: id 0x1234, recursion desired, one question.
pub open spec fn query_head() -> Seq<u8> {
    u16_be(0x1234) + u16_be(0x0100) + u16_be(1) + u16_be(0) + u16_be(0) + u16_be(0)
}

/// A query for `domain` (its UTF-8 bytes) of type `qtype`, class IN: the
/// header, the labels split at each `.`, the root label, type and class.
pub open spec fn query_packet(domain: Seq<u8>, qtype: u16) -> Seq<u8> {
    query_head() + label_bytes(split_from(domain, 46, 0, 0)) + seq![0u8] + u16_be(qtype) + u16_be(
        DNS_CLASS_IN,
    )
}

/// Builds a query for a domain, as the probe and the DNS check send it.
pub fn make_dns_query_packet(domain: &str, qtype: u16) -> (p: Vec<u8>)
    ensures
        p@ == query_packet(encode_utf8(domain@), qtype),
{
    let b = domain.as_bytes();
    let ghost bytes = b@;
    assert(bytes == encode_utf8(domain@));
    let mut out: Vec<u8> = Vec::new();
    push_u16_be(&mut out, 0x1234);
    push_u16_be(&mut out, 0x0100);
    push_u16_be(&mut out, 1);
    push_u16_be(&mut out, 0);
    push_u16_be(&mut out, 0);
    push_u16_be(&mut out, 0);
    assert(out@ =~= query_head());
    let n = b.len();
    let mut start: usize = 0;
    let mut i: usize = 0;
    let ghost mut done: Seq<Seq<u8>> = Seq::empty();
    while i < n
        invariant
            n == b@.len(),
            bytes == b@,
            start <= i <= n,
            split_from(bytes, 46, 0, 0) == done + split_from(bytes, 46, start as int, i as int),
            out@ == query_head() + label_bytes(done),
        decreases n - i,
    {
        if b[i] == 46 {
            let ghost label = bytes.subrange(start as int, i as int);
            let ghost rest = split_from(bytes, 46, i + 1, i + 1);
            assert(split_from(bytes, 46, start as int, i as int) == seq![label] + rest);
            out.push((i - start) as u8);
            push_bytes(&mut out, b, start, i);
            proof {
                assert(done.push(label).drop_last() =~= done);
                assert(done + (seq![label] + rest) =~= done.push(label) + rest);
                done = done.push(label);
            }
            assert(out@ =~= query_head() + label_bytes(done));
            start = i + 1;
        }
        i = i + 1;
    }
    let ghost label = bytes.subrange(start as int, n as int);
    assert(split_from(bytes, 46, start as int, n as int) == seq![label]);
    out.push((n - start) as u8);
    push_bytes(&mut out, b, start, n);
    proof {
        assert(done.push(label).drop_last() =~= done);
        assert(done + seq![label] =~= done.push(label));
        done = done.push(label);
    }
    assert(out@ =~= query_head() + label_bytes(done));
    out.push(0);
    push_u16_be(&mut out, qtype);
    push_u16_be(&mut out, DNS_CLASS_IN);
    assert(out@ =~= query_packet(bytes, qtype));
    out
}

// ---------------------------------------------------------------------------
// Reading answers
// ---------------------------------------------------------------------------

/// The header fields of a DNS response that the probe reports.
#[derive(Debug, Clone, Copy, PartialEq, Eq, Structural)]
pub struct DnsResponseSummary {
    pub flags: u16,
    pub rcode: u16,
    pub question_count: u16,
    pub answer_count: u16,
    pub authority_count: u16,
    pub additional_count: u16,
}

/// Reads the header of a response: flags, response code (the low four bits
/// of the flags) and the four record counts; nothing for a packet shorter
/// than a header.
pub fn summarize_dns_response(response: &[u8]) -> (r: Option<DnsResponseSummary>)
    ensures
        response@.len() < 12 ==> r is None,
        response@.len() >= 12 ==> (r matches Some(x) && {
            let p = response@;
            &&& x.flags == be16(p[2], p[3])
            &&& x.rcode == x.flags & 0x000F
            &&& x.question_count == be16(p[4], p[5])
            &&& x.answer_count == be16(p[6], p[7])
            &&& x.authority_count == be16(p[8], p[9])
            &&& x.additional_count == be16(p[10], p[11])
        }),
{
    if response.len() < 12 {
        return None;
    }
    let hi = response[2] as u16;
    let flags = hi * 256 + response[3] as u16;
    let hi = response[4] as u16;
    let question_count = hi * 256 + response[5] as u16;
    let hi = response[6] as u16;
    let answer_count = hi * 256 + response[7] as u16;
    let hi = response[8] as u16;
    let authority_count = hi * 256 + response[9] as u16;
    let hi = response[10] as u16;
    let additional_count = hi * 256 + response[11] as u16;
    Some(
        DnsResponseSummary {
            flags,
            rcode: flags & 0x000F,
            question_count,
            answer_count,
            authority_count,
            additional_count,
        },
    )
}

/// The last four bytes of a response, read as a possible `A` answer; nothing
/// for fewer than four bytes.
pub fn possible_a_answer(response: &[u8]) -> (r: Option<(u8, u8, u8, u8)>)
    ensures
        response@.len() < 4 ==> r is None,
        response@.len() >= 4 ==> r == Some(
            {
                let n = response@.len() as int;
                (response@[n - 4], response@[n - 3], response@[n - 2], response@[n - 1])
            },
        ),
{
    let n = response.len();
    if n < 4 {
        return None;
    }
    Some((response[n - 4], response[n - 3], response[n - 2], response[n - 1]))
}

/// The last (at most) sixteen bytes of a response.
pub fn response_tail(response: &[u8]) -> (r: &[u8])
    ensures
        r@ == response@.subrange(
            if response@.len() >= 16 {
                response@.len() - 16
            } else {
                0
            },
            response@.len() as int,
        ),
{
    let n = response.len();
    let start = if n >= 16 {
        n - 16
    } else {
        0
    };
    vstd::slice::slice_subrange(response, start, n)
}

/// The labels of a name, read from the front: the first label's length and
/// bytes, then the others.
proof fn lemma_label_bytes_front(x: Seq<u8>, rest: Seq<Seq<u8>>)
    ensures
        label_bytes(seq![x] + rest) == seq![x.len() as u8] + x + label_bytes(rest),
    decreases rest.len(),
{
    let ls = seq![x] + rest;
    if rest.len() == 0 {
        assert(ls.drop_last() =~= Seq::<Seq<u8>>::empty());
        assert(ls.last() == x);
        assert(label_bytes(ls.drop_last()) == Seq::<u8>::empty());
        assert(label_bytes(rest) == Seq::<u8>::empty());
        assert(label_bytes(ls) =~= seq![x.len() as u8] + x + label_bytes(rest));
    } else {
        assert(ls.drop_last() =~= seq![x] + rest.drop_last());
        lemma_label_bytes_front(x, rest.drop_last());
        assert(label_bytes(ls) =~= seq![x.len() as u8] + x + label_bytes(rest));
    }
}

/// Reading labels that a name was written from gives them back, decoded.
proof fn lemma_parse_written_labels(p: Seq<u8>, o: int, ls: Seq<Seq<u8>>)
    requires
        0 <= o,
        o + label_bytes(ls).len() < p.len(),
        p.subrange(o, o + label_bytes(ls).len()) == label_bytes(ls),
        p[o + label_bytes(ls).len()] == 0,
        forall|k: int| 0 <= k < ls.len() ==> 0 < (#[trigger] ls[k]).len() < 64 && valid_utf8(ls[k]),
    ensures
        parse_labels(p, o) == Ok::<(Seq<Seq<char>>, int), PacketErrorView>(
            (ls.map_values(|x: Seq<u8>| decode_utf8(x)), o + label_bytes(ls).len() + 1),
        ),
    decreases ls.len(),
{
    if ls.len() == 0 {
        assert(ls.map_values(|x: Seq<u8>| decode_utf8(x)) =~= Seq::<Seq<char>>::empty());
    } else {
        let x = ls[0];
        let rest = ls.drop_first();
        assert(ls =~= seq![x] + rest);
        lemma_label_bytes_front(x, rest);
        let n = label_bytes(ls).len() as int;
        let len = x.len() as int;
        assert(p[o] == p.subrange(o, o + n)[0]);
        assert(p[o] == x.len() as u8);
        assert(p[o] as int == len);
        assert(p.subrange(o + 1, o + 1 + len) =~= x) by {
            assert forall|k: int| 0 <= k < len implies #[trigger] p.subrange(o + 1, o + 1 + len)[k]
                == x[k] by {
                assert(p.subrange(o, o + n)[1 + k] == x[k]);
            }
        }
        let o2 = o + 1 + len;
        let m = label_bytes(rest).len() as int;
        assert(p.subrange(o2, o2 + m) =~= label_bytes(rest)) by {
            assert forall|k: int| 0 <= k < m implies #[trigger] p.subrange(o2, o2 + m)[k]
                == label_bytes(rest)[k] by {
                assert(p.subrange(o, o + n)[1 + len + k] == label_bytes(rest)[k]);
            }
        }
        assert forall|k: int| 0 <= k < rest.len() implies 0 < (#[trigger] rest[k]).len() < 64
            && valid_utf8(rest[k]) by {
            assert(rest[k] == ls[k + 1]);
        }
        lemma_parse_written_labels(p, o2, rest);
        assert(ls.map_values(|x: Seq<u8>| decode_utf8(x)) =~= seq![decode_utf8(x)]
            + rest.map_values(|x: Seq<u8>| decode_utf8(x)));
    }
}

/// Encoding a concatenation encodes each part.
proof fn lemma_encode_utf8_concat(a: Seq<char>, b: Seq<char>)
    ensures
        encode_utf8(a + b) == encode_utf8(a) + encode_utf8(b),
    decreases a.len(),
{
    if a.len() == 0 {
        assert(a + b =~= b);
        assert(encode_utf8(a) =~= Seq::<u8>::empty());
        assert(encode_utf8(a) + encode_utf8(b) =~= encode_utf8(b));
    } else {
        assert((a + b)[0] == a[0]);
        assert((a + b).drop_first() =~= a.drop_first() + b);
        lemma_encode_utf8_concat(a.drop_first(), b);
        assert(encode_utf8(a + b) =~= encode_utf8(a) + encode_utf8(b));
    }
}

/// Splitting a text that follows a prefix is splitting the text alone.
proof fn lemma_split_after_prefix(a: Seq<u8>, b: Seq<u8>, sep: u8, s: int, i: int)
    requires
        0 <= s <= i <= b.len(),
    ensures
        split_from(a + b, sep, a.len() + s, a.len() + i) == split_from(b, sep, s, i),
    decreases b.len() - i,
{
    let w = a + b;
    let n = a.len() as int;
    if i >= b.len() {
        assert(w.subrange(n + s, w.len() as int) =~= b.subrange(s, b.len() as int));
    } else {
        assert(w[n + i] == b[i]);
        if b[i] == sep {
            assert(w.subrange(n + s, n + i) =~= b.subrange(s, i));
            lemma_split_after_prefix(a, b, sep, i + 1, i + 1);
        } else {
            lemma_split_after_prefix(a, b, sep, s, i + 1);
        }
    }
}

/// Positions that hold no separator do not end a part.
proof fn lemma_split_skip(b: Seq<u8>, sep: u8, s: int, i: int, j: int)
    requires
        0 <= s <= i <= j <= b.len(),
        forall|k: int| i <= k < j ==> #[trigger] b[k] != sep,
    ensures
        split_from(b, sep, s, i) == split_from(b, sep, s, j),
    decreases j - i,
{
    if i < j {
        lemma_split_skip(b, sep, s, i + 1, j);
    }
}

/// Splitting the UTF-8 bytes of a text at the byte 46 gives the encodings of
/// its `.`-separated parts: each part is valid UTF-8, and joining the decoded
/// parts with `.` gives the text back.
proof fn lemma_split_encoded(d: Seq<char>)
    ensures
        split_from(encode_utf8(d), 46, 0, 0).len() > 0,
        forall|k: int|
            0 <= k < split_from(encode_utf8(d), 46, 0, 0).len() ==> valid_utf8(
                #[trigger] split_from(encode_utf8(d), 46, 0, 0)[k],
            ),
        join_labels(split_from(encode_utf8(d), 46, 0, 0).map_values(|x: Seq<u8>| decode_utf8(x)))
            == d,
    decreases d.len(),
{
    let b = encode_utf8(d);
    crate::text::lemma_index_of_from_bounds(d, '.', 0);
    match crate::text::index_of(d, '.') {
        None => {
            crate::text::lemma_encode_avoids_ascii_char(d, '.');
            lemma_split_skip(b, 46, 0, 0, b.len() as int);
            let parts = split_from(b, 46, 0, 0);
            assert(parts =~= seq![b]) by {
                assert(b.subrange(0, b.len() as int) =~= b);
            }
            encode_utf8_valid_utf8(d);
            encode_utf8_decode_utf8(d);
            assert(parts.map_values(|x: Seq<u8>| decode_utf8(x)) =~= seq![d]);
        },
        Some(p) => {
            let x = d.take(p);
            let y = d.skip(p + 1);
            assert(d =~= x + seq!['.'] + y);
            assert forall|k: int| 0 <= k < x.len() implies #[trigger] x[k] != '.' by {
                assert(x[k] == d[k]);
            }
            lemma_encode_utf8_concat(x + seq!['.'], y);
            lemma_encode_utf8_concat(x, seq!['.']);
            let dot = encode_utf8(seq!['.']);
            assert(('.' as u32) == 46u32);
            assert(46u32 & 0x7F == 46u32) by (bit_vector);
            assert(dot =~= seq![46u8]) by {
                let one = seq!['.'];
                assert(one[0] == '.');
                assert(one.drop_first() =~= Seq::<char>::empty());
                assert(encode_utf8(one.drop_first()) =~= Seq::<u8>::empty());
                assert(has_width_1_encoding('.' as u32));
                assert(encode_scalar('.' as u32) =~= seq![46u8]);
                assert(encode_utf8(one) =~= encode_scalar('.' as u32) + encode_utf8(
                    one.drop_first(),
                ));
            }
            let ex = encode_utf8(x);
            let ey = encode_utf8(y);
            assert(b =~= ex + seq![46u8] + ey);
            crate::text::lemma_encode_avoids_ascii_char(x, '.');
            assert forall|k: int| 0 <= k < ex.len() implies #[trigger] b[k] != 46u8 by {
                assert(b[k] == ex[k]);
            }
            lemma_split_skip(b, 46, 0, 0, ex.len() as int);
            assert(b[ex.len() as int] == 46u8);
            let rest = split_from(b, 46, ex.len() as int + 1, ex.len() as int + 1);
            assert(split_from(b, 46, 0, ex.len() as int) == seq![b.subrange(0, ex.len() as int)]
                + rest);
            assert(b.subrange(0, ex.len() as int) =~= ex);
            lemma_split_after_prefix(ex + seq![46u8], ey, 46, 0, 0);
            assert(ex + seq![46u8] + ey =~= b);
            assert(rest == split_from(ey, 46, 0, 0));
            lemma_split_encoded(y);
            encode_utf8_valid_utf8(x);
            encode_utf8_decode_utf8(x);
            let parts = split_from(b, 46, 0, 0);
            assert(parts == seq![ex] + rest);
            let decoded = parts.map_values(|z: Seq<u8>| decode_utf8(z));
            let rest_decoded = rest.map_values(|z: Seq<u8>| decode_utf8(z));
            assert(decoded.drop_first() =~= rest_decoded);
            assert(decoded[0] == x);
            assert(join_labels(decoded) =~= d);
            assert forall|k: int| 0 <= k < parts.len() implies valid_utf8(#[trigger] parts[k]) by {
                if k > 0 {
                    assert(parts[k] == rest[k - 1]);
                }
            }
        },
    }
}

/// A probe query for a domain whose labels (its UTF-8 bytes split at `.`)
/// each have 1 to 63 bytes reads back as a question for that domain
/// (normalised), with the asked type and class IN, ending where the packet
/// ends.
pub proof fn law_query_reads_back(d: Seq<char>, qtype: u16)
    requires
        forall|k: int|
            0 <= k < split_from(encode_utf8(d), 46, 0, 0).len() ==> 0 < (#[trigger] split_from(
                encode_utf8(d),
                46,
                0,
                0,
            )[k]).len() < 64,
    ensures
        parse_question(query_packet(encode_utf8(d), qtype)) == match normalize(d) {
            Ok(n) => Ok::<QuestionView, PacketErrorView>(
                QuestionView {
                    domain: n,
                    qtype,
                    qclass: DNS_CLASS_IN,
                    question_end: query_packet(encode_utf8(d), qtype).len() as int,
                },
            ),
            Err(e) => Err(PacketErrorView::InvalidDomain(error_debug(e))),
        },
{
    let b = encode_utf8(d);
    let ls = split_from(b, 46, 0, 0);
    lemma_split_encoded(d);
    let p = query_packet(b, qtype);
    let lb = label_bytes(ls);
    let n = lb.len() as int;
    assert(p =~= query_head() + lb + seq![0u8] + u16_be(qtype) + u16_be(DNS_CLASS_IN));
    assert(query_head().len() == 12);
    assert(p.subrange(12, 12 + n) =~= lb);
    assert(p[12 + n] == 0);
    lemma_parse_written_labels(p, 12, ls);
    assert(p[4] == 0 && p[5] == 1);
    let off = 12 + n + 1;
    assert(p[off] == (qtype / 256) as u8 && p[off + 1] == (qtype % 256) as u8);
    assert(p[off + 2] == 0 && p[off + 3] == 1);
    assert(be16(p[off], p[off + 1]) == qtype);
}

/// The run of non-dot characters that ends just before `i` starts at `s`
/// when `s` is the start of the text or follows a dot.
proof fn lemma_run_len_from(d: Seq<char>, s: int, i: int)
    requires
        0 <= s <= i <= d.len(),
        s == 0 || d[s - 1] == '.',
        forall|k: int| s <= k < i ==> #[trigger] d[k] != '.',
    ensures
        run_len(d, i - 1) == i - s,
    decreases i - s,
{
    if i > s {
        lemma_run_len_from(d, s, i - 1);
    }
}

/// The byte pieces of a valid domain's name, split at its dots, each have 1
/// to 63 bytes, and written as labels they take one byte more than the name.
proof fn lemma_valid_domain_pieces(d: Seq<char>, b: Seq<u8>, s: int, i: int)
    requires
        valid_domain(d),
        b.len() == d.len(),
        forall|k: int| 0 <= k < d.len() ==> (#[trigger] b[k] == 46u8 <==> d[k] == '.'),
        0 <= s <= i <= d.len(),
        s == 0 || d[s - 1] == '.',
        forall|k: int| s <= k < i ==> #[trigger] d[k] != '.',
    ensures
        forall|k: int|
            0 <= k < split_from(b, 46, s, i).len() ==> 0 < (#[trigger] split_from(b, 46, s, i)[k]).len()
                < 64,
        label_bytes(split_from(b, 46, s, i)).len() == b.len() - s + 1,
    decreases d.len() - i,
{
    let n = d.len() as int;
    if i >= n {
        let piece = b.subrange(s, n);
        lemma_run_len_from(d, s, n);
        assert(valid_at(d, n - 1));
        if s == n && s > 0 {
            assert(d[n - 1] == '.');
        }
        assert(split_from(b, 46, s, i) =~= seq![piece]);
        assert(seq![piece].drop_last() =~= Seq::<Seq<u8>>::empty());
        assert(label_bytes(Seq::<Seq<u8>>::empty()) == Seq::<u8>::empty());
        assert(seq![piece].last() == piece);
    } else if b[i] == 46 {
        assert(d[i] == '.');
        assert(valid_at(d, i));
        if i == s && s > 0 {
            assert(d[i - 1] == '.');
        }
        assert(i > s);
        lemma_run_len_from(d, s, i);
        assert(valid_at(d, i - 1));
        let piece = b.subrange(s, i);
        let rest = split_from(b, 46, i + 1, i + 1);
        lemma_valid_domain_pieces(d, b, i + 1, i + 1);
        assert(split_from(b, 46, s, i) == seq![piece] + rest);
        lemma_label_bytes_front(piece, rest);
        assert forall|k: int| 0 <= k < split_from(b, 46, s, i).len() implies 0 < (
        #[trigger] split_from(b, 46, s, i)[k]).len() < 64 by {
            if k > 0 {
                assert(split_from(b, 46, s, i)[k] == rest[k - 1]);
            }
        }
    } else {
        assert(d[i] != '.');
        lemma_valid_domain_pieces(d, b, s, i + 1);
    }
}

/// A probe query for a canonical domain (one that normalises to itself)
/// reads back as a question for exactly that domain, with the asked type and
/// class IN, ending six bytes after the name's twelve-byte header and name.
pub proof fn law_canonical_query_reads_back(d: Seq<char>, qtype: u16)
    requires
        normalize(d) == Ok::<Seq<char>, BlockerErrorView>(d),
    ensures
        parse_question(query_packet(encode_utf8(d), qtype)) == Ok::<QuestionView, PacketErrorView>(
            QuestionView {
                domain: d,
                qtype,
                qclass: DNS_CLASS_IN,
                question_end: 12 + d.len() as int + 6,
            },
        ),
{
    lemma_normalized_is_canonical(d);
    assert(valid_domain(d));
    assert(is_ascii_chars(d)) by {
        assert forall|k: int| 0 <= k < d.len() implies '\0' <= #[trigger] d[k] <= '\u{7f}' by {
            assert(valid_at(d, k));
        }
    }
    is_ascii_chars_encode_utf8(d);
    let b = encode_utf8(d);
    assert forall|k: int| 0 <= k < d.len() implies (#[trigger] b[k] == 46u8 <==> d[k] == '.') by {
        assert(b[k] == d[k] as u8);
        if d[k] != '.' {
            crate::text::lemma_char_codes_differ(d[k], '.');
            assert(valid_at(d, k));
        }
    }
    lemma_valid_domain_pieces(d, b, 0, 0);
    law_query_reads_back(d, qtype);
}

/// A DNS check agrees with the engine: the `A` query that the check builds
/// for a domain whose labels each have 1 to 63 bytes is answered with
/// a block exactly when checking the domain itself gives `Blocked`, and is
/// forwarded otherwise.
pub proof fn law_dns_check_agrees_with_engine(
    blocklist: Seq<crate::rule::RuleView>,
    allowlist: Seq<crate::rule::RuleView>,
    d: Seq<char>,
    ttl: u32,
)
    requires
        forall|k: int|
            0 <= k < split_from(encode_utf8(d), 46, 0, 0).len() ==> 0 < (#[trigger] split_from(
                encode_utf8(d),
                46,
                0,
                0,
            )[k]).len() < 64,
        normalize(d) is Ok,
    ensures
        (decide_query(query_packet(encode_utf8(d), DNS_TYPE_A), blocklist, allowlist, ttl) matches Ok(
            QueryDecisionView::Block { .. },
        )) <==> (check(blocklist, allowlist, d) matches Ok(DecisionView::Blocked { .. })),
        (decide_query(query_packet(encode_utf8(d), DNS_TYPE_A), blocklist, allowlist, ttl) matches Ok(
            QueryDecisionView::Forward { .. },
        )) <==> !(check(blocklist, allowlist, d) matches Ok(DecisionView::Blocked { .. })),
{
    law_query_reads_back(d, DNS_TYPE_A);
    law_normalize_idempotent(d);
}

/// The answer record of a blocking response, read back: after the question
/// comes the name pointer `C0 0C` to the question's name, then the query's
/// own type and class, the given time to live, and a data length of 4 for
/// `A` and 16 for `AAAA`, each read big-endian.
pub proof fn law_block_answer_record_matches_query(q: Seq<u8>, question: QuestionView, ttl: u32)
    requires
        12 <= question.question_end <= q.len(),
        question.qtype == DNS_TYPE_A || question.qtype == DNS_TYPE_AAAA,
    ensures
        ({
            let r = block_response(q, question, ttl);
            let e = question.question_end;
            &&& r.len() > e + 12
            &&& r[e] == 0xC0 && r[e + 1] == 0x0C
            &&& be16(r[e + 2], r[e + 3]) == question.qtype
            &&& be16(r[e + 4], r[e + 5]) == question.qclass
            &&& r[e + 6] as int * 0x100_0000 + r[e + 7] as int * 0x1_0000 + r[e + 8] as int * 0x100
                + r[e + 9] as int == ttl as int
            &&& be16(r[e + 10], r[e + 11]) == if question.qtype == DNS_TYPE_A {
                4u16
            } else {
                16u16
            }
        }),
{
    let rd: u16 = recursion_desired(q);
    let flags = (0x8000u16 | 0x0080u16 | rd) as u16;
    let e = question.question_end;
    let data = answer_data(question.qtype)->Some_0;
    let head = response_head(q, flags, 1, e);
    let rec = seq![0xC0u8, 0x0Cu8] + u16_be(question.qtype) + u16_be(question.qclass) + u32_be(ttl)
        + u16_be(data.len() as u16) + data;
    let r = block_response(q, question, ttl);
    assert(head.len() == e);
    assert(r =~= head + rec);
    assert(forall|k: int| 0 <= k < rec.len() ==> r[e + k] == #[trigger] rec[k]);
    assert(r[e] == rec[0]);
    assert(r[e + 1] == rec[1]);
    assert(r[e + 2] == rec[2] && r[e + 3] == rec[3]);
    assert(r[e + 4] == rec[4] && r[e + 5] == rec[5]);
    assert(r[e + 6] == rec[6] && r[e + 7] == rec[7] && r[e + 8] == rec[8] && r[e + 9] == rec[9]);
    assert(r[e + 10] == rec[10] && r[e + 11] == rec[11]);
    let x = ttl;
    assert((x / 0x100_0000) as u8 as int * 0x100_0000 + ((x / 0x1_0000) % 256) as u8 as int
        * 0x1_0000 + ((x / 256) % 256) as u8 as int * 0x100 + (x % 256) as u8 as int == x as int)
        by (nonlinear_arith);
}


/// A blocking answer points the name at the zero address: for an `A` query
/// it holds one answer whose data is the four bytes of `0.0.0.0`, for an
/// `AAAA` query one answer whose data is the sixteen bytes of `::`, and for
/// any other type no answer. It keeps the query's id and sets the response
/// bit.
pub proof fn law_block_answer_is_zero_address(q: Seq<u8>, question: QuestionView, ttl: u32)
    requires
        12 <= question.question_end <= q.len(),
    ensures
        ({
            let r = block_response(q, question, ttl);
            &&& r[0] == q[0] && r[1] == q[1]
            &&& r[2] >= 0x80
            &&& question.qtype == DNS_TYPE_A ==> {
                &&& r.len() == question.question_end + 16
                &&& r[6] == 0 && r[7] == 1
                &&& r.subrange(r.len() - 4, r.len() as int) == seq![0u8, 0u8, 0u8, 0u8]
            }
            &&& question.qtype == DNS_TYPE_AAAA ==> {
                &&& r.len() == question.question_end + 28
                &&& r[6] == 0 && r[7] == 1
                &&& r.subrange(r.len() - 16, r.len() as int) == Seq::new(16, |i: int| 0u8)
            }
            &&& question.qtype != DNS_TYPE_A && question.qtype != DNS_TYPE_AAAA ==> {
                &&& r.len() == question.question_end
                &&& r[6] == 0 && r[7] == 0
            }
        }),
{
    let rd: u16 = recursion_desired(q);
    let flags = (0x8000u16 | 0x0080u16 | rd) as u16;
    assert(((0x8000u16 | 0x0080u16 | rd) as u16) >= 0x8000u16) by (bit_vector);
    let r = block_response(q, question, ttl);
    match answer_data(question.qtype) {
        Some(data) => {
            let head = response_head(q, flags, 1, question.question_end);
            assert(head.len() == question.question_end);
            assert(r[0] == head[0] && r[1] == head[1] && r[2] == head[2]);
            assert(r[6] == head[6] && r[7] == head[7]);
            assert(r.subrange(r.len() - data.len(), r.len() as int) =~= data);
        },
        None => {
            let head = response_head(q, flags, 0, question.question_end);
            assert(r =~= head);
        },
    }
}

} // verus!
