//! The HTTP API: reading requests, routing them, and writing JSON responses.
//! The sockets and the database calls run outside this crate; they hand the
//! results back to `api_response`.
use vstd::prelude::*;
use vstd::string::StrSliceExecFns;
use vstd::utf8::{
    decode_utf8, encode_utf8, encode_utf8_decode_utf8, encode_utf8_valid_utf8, valid_utf8,
};

use crate::rule::opt_string_view;
use crate::store::{BlockedDomainSummary, StoredBlockEvent};
use crate::loader::{after_first_word, first_word, first_word_range, lines, lines_from, strip_cr};
use crate::text::{
    append_chars, append_str, bool_text, chars_of, decimal, index_of, index_of_from,
    index_of_range, lemma_index_of_from_bounds, push_bool, push_decimal, push_signed_decimal,
    signed_decimal, signed_number, str_is, string_from_chars,
};

verus! {

// ---------------------------------------------------------------------------
// JSON
// ---------------------------------------------------------------------------

/// A control character (general category `Cc`), as `char::is_control` says.
pub open spec fn is_control(c: char) -> bool {
    c <= '\u{1f}' || ('\u{7f}' <= c && c <= '\u{9f}')
}

/// The lower-case hexadecimal digit for `d < 16`.
pub open spec fn hex_digit(d: nat) -> char {
    if d < 10 {
        ((48 + d) as u8) as char
    } else {
        ((87 + d) as u8) as char
    }
}

/// Four lower-case hexadecimal digits (`{:04x}` for a number below 0x10000).
pub open spec fn hex4(x: nat) -> Seq<char> {
    seq![
        hex_digit((x / 4096) % 16),
        hex_digit((x / 256) % 16),
        hex_digit((x / 16) % 16),
        hex_digit(x % 16),
    ]
}

/// How one character is written inside a JSON string.
pub open spec fn json_escape_char(c: char) -> Seq<char> {
    if c == '"' {
        seq!['\\', '"']
    } else if c == '\\' {
        seq!['\\', '\\']
    } else if c == '\n' {
        seq!['\\', 'n']
    } else if c == '\r' {
        seq!['\\', 'r']
    } else if c == '\t' {
        seq!['\\', 't']
    } else if is_control(c) {
        seq!['\\', 'u'] + hex4(c as nat)
    } else {
        seq![c]
    }
}

/// A text escaped for a JSON string.
pub open spec fn json_escape_spec(s: Seq<char>) -> Seq<char>
    decreases s.len(),
{
    if s.len() == 0 {
        Seq::empty()
    } else {
        json_escape_spec(s.drop_last()) + json_escape_char(s.last())
    }
}

/// Escaping leaves no control character in the text: every control
/// character is written as an escape sequence of printable ASCII characters.
pub proof fn law_json_escape_has_no_control_characters(s: Seq<char>)
    ensures
        forall|i: int|
            0 <= i < json_escape_spec(s).len() ==> !is_control(#[trigger] json_escape_spec(s)[i]),
    decreases s.len(),
{
    if s.len() > 0 {
        law_json_escape_has_no_control_characters(s.drop_last());
        let prefix = json_escape_spec(s.drop_last());
        let tail = json_escape_char(s.last());
        assert forall|i: int| 0 <= i < tail.len() implies !is_control(#[trigger] tail[i]) by {
            let c = s.last();
            if is_control(c) && c != '\n' && c != '\r' && c != '\t' {
                let x = c as nat;
                assert(tail == seq!['\\', 'u'] + hex4(x));
                if i >= 2 {
                    let d = if i == 2 {
                        (x / 4096) % 16
                    } else if i == 3 {
                        (x / 256) % 16
                    } else if i == 4 {
                        (x / 16) % 16
                    } else {
                        x % 16
                    };
                    assert(tail[i] == hex_digit(d));
                    assert(d < 16);
                }
            }
        }
        assert forall|i: int| 0 <= i < json_escape_spec(s).len() implies !is_control(
            #[trigger] json_escape_spec(s)[i],
        ) by {
            if i < prefix.len() {
                assert(json_escape_spec(s)[i] == prefix[i]);
            } else {
                assert(json_escape_spec(s)[i] == tail[i - prefix.len()]);
            }
        }
    }
}

fn push_hex_digit(out: &mut Vec<char>, d: u32)
    requires
        d < 16,
    ensures
        final(out)@ == old(out)@.push(hex_digit(d as nat)),
{
    if d < 10 {
        out.push((48u8 + d as u8) as char);
    } else {
        out.push((87u8 + d as u8) as char);
    }
}

fn push_escaped_char(out: &mut Vec<char>, c: char)
    ensures
        final(out)@ == old(out)@ + json_escape_char(c),
{
    if c == '"' {
        out.push('\\');
        out.push('"');
    } else if c == '\\' {
        out.push('\\');
        out.push('\\');
    } else if c == '\n' {
        out.push('\\');
        out.push('n');
    } else if c == '\r' {
        out.push('\\');
        out.push('r');
    } else if c == '\t' {
        out.push('\\');
        out.push('t');
    } else if c <= '\u{1f}' || ('\u{7f}' <= c && c <= '\u{9f}') {
        let x = c as u32;
        out.push('\\');
        out.push('u');
        push_hex_digit(out, (x / 4096) % 16);
        push_hex_digit(out, (x / 256) % 16);
        push_hex_digit(out, (x / 16) % 16);
        push_hex_digit(out, x % 16);
    } else {
        out.push(c);
    }
    assert(final(out)@ =~= old(out)@ + json_escape_char(c));
}

/// Appends a text escaped for a JSON string.
fn push_json_escaped(out: &mut Vec<char>, s: &str)
    ensures
        final(out)@ == old(out)@ + json_escape_spec(s@),
{
    let v = chars_of(s);
    let mut i: usize = 0;
    while i < v.len()
        invariant
            i <= v@.len(),
            v@ == s@,
            out@ == old(out)@ + json_escape_spec(v@.take(i as int)),
        decreases v.len() - i,
    {
        push_escaped_char(out, v[i]);
        i = i + 1;
        assert(v@.take(i as int).drop_last() =~= v@.take(i - 1));
        assert(out@ =~= old(out)@ + json_escape_spec(v@.take(i as int)));
    }
    assert(v@.take(v@.len() as int) =~= v@);
}

/// Escapes a text for a JSON string.
pub fn json_escape(value: &str) -> (r: String)
    ensures
        r@ == json_escape_spec(value@),
{
    let mut out: Vec<char> = Vec::new();
    push_json_escaped(&mut out, value);
    string_from_chars(out.as_slice())
}

/// A JSON string in quotes.
pub open spec fn json_string(s: Seq<char>) -> Seq<char> {
    "\""@ + json_escape_spec(s) + "\""@
}

/// Appends a text as a quoted JSON string.
fn push_json_string(out: &mut Vec<char>, s: &str)
    ensures
        final(out)@ == old(out)@ + json_string(s@),
{
    append_str(out, "\"");
    push_json_escaped(out, s);
    append_str(out, "\"");
    assert(final(out)@ =~= old(out)@ + json_string(s@));
}

/// An optional string in JSON: the quoted string, or `null`.
pub open spec fn json_optional(o: Option<Seq<char>>) -> Seq<char> {
    match o {
        Some(s) => json_string(s),
        None => "null"@,
    }
}

fn push_json_optional(out: &mut Vec<char>, o: &Option<String>)
    ensures
        final(out)@ == old(out)@ + json_optional(opt_string_view(*o)),
{
    match o {
        Some(s) => {
            push_json_string(out, s.as_str());
        },
        None => {
            append_str(out, "null");
        },
    }
}

/// An optional string in JSON: the quoted string, or `null`.
pub fn json_optional_string(value: Option<&str>) -> (r: String)
    ensures
        r@ == json_optional(crate::rule::opt_str_view(value)),
{
    let mut out: Vec<char> = Vec::new();
    match value {
        Some(s) => {
            append_str(&mut out, "\"");
            push_json_escaped(&mut out, s);
            append_str(&mut out, "\"");
            assert(out@ =~= json_optional(crate::rule::opt_str_view(value)));
        },
        None => {
            append_str(&mut out, "null");
        },
    }
    string_from_chars(out.as_slice())
}

/// Items joined with commas.
pub open spec fn join_commas(items: Seq<Seq<char>>) -> Seq<char>
    decreases items.len(),
{
    if items.len() == 0 {
        Seq::empty()
    } else if items.len() == 1 {
        items[0]
    } else {
        join_commas(items.drop_last()) + ","@ + items.last()
    }
}

/// The first fields of a stored event in JSON: id, domain and action.
pub open spec fn event_json_head(e: StoredBlockEvent) -> Seq<char> {
    "{\"id\":"@ + signed_decimal(e.id as int) + ",\"domain\":"@ + json_string(e.domain@)
        + ",\"action\":"@ + json_string(e.action@)
}

/// The remaining fields of a stored event in JSON, and the closing brace.
pub open spec fn event_json_tail(e: StoredBlockEvent) -> Seq<char> {
    ",\"matched_rule\":"@ + json_optional(opt_string_view(e.matched_rule)) + ",\"rule_source\":"@
        + json_optional(opt_string_view(e.rule_source)) + ",\"category\":"@ + json_optional(
        opt_string_view(e.category),
    ) + ",\"occurred_at_unix\":"@ + signed_decimal(e.occurred_at_unix as int) + "}"@
}

/// A stored event as a JSON object.
pub open spec fn event_json(e: StoredBlockEvent) -> Seq<char> {
    event_json_head(e) + event_json_tail(e)
}

fn push_event_json_head(out: &mut Vec<char>, e: &StoredBlockEvent)
    ensures
        final(out)@ == old(out)@ + event_json_head(*e),
{
    append_str(out, "{\"id\":");
    push_signed_decimal(out, e.id);
    append_str(out, ",\"domain\":");
    push_json_string(out, e.domain.as_str());
    append_str(out, ",\"action\":");
    push_json_string(out, e.action.as_str());
    assert(final(out)@ =~= old(out)@ + event_json_head(*e));
}

fn push_event_json_tail(out: &mut Vec<char>, e: &StoredBlockEvent)
    ensures
        final(out)@ == old(out)@ + event_json_tail(*e),
{
    append_str(out, ",\"matched_rule\":");
    push_json_optional(out, &e.matched_rule);
    append_str(out, ",\"rule_source\":");
    push_json_optional(out, &e.rule_source);
    append_str(out, ",\"category\":");
    push_json_optional(out, &e.category);
    append_str(out, ",\"occurred_at_unix\":");
    push_signed_decimal(out, e.occurred_at_unix);
    append_str(out, "}");
    assert(final(out)@ =~= old(out)@ + event_json_tail(*e));
}

fn push_event_json(out: &mut Vec<char>, e: &StoredBlockEvent)
    ensures
        final(out)@ == old(out)@ + event_json(*e),
{
    push_event_json_head(out, e);
    push_event_json_tail(out, e);
    assert(final(out)@ =~= old(out)@ + event_json(*e));
}

/// A stored event as a JSON object.
pub fn event_to_json(event: &StoredBlockEvent) -> (r: String)
    ensures
        r@ == event_json(*event),
{
    let mut out: Vec<char> = Vec::new();
    push_event_json(&mut out, event);
    assert(out@ =~= event_json(*event));
    string_from_chars(out.as_slice())
}

/// A list of stored events as JSON.
pub open spec fn events_json(events: Seq<StoredBlockEvent>) -> Seq<char> {
    "{\"events\":["@ + join_commas(events.map_values(|e: StoredBlockEvent| event_json(e))) + "]}"@
}

/// The events as a JSON object `{"events":[...]}`.
pub fn events_to_json(events: &[StoredBlockEvent]) -> (r: String)
    ensures
        r@ == events_json(events@),
{
    let mut out: Vec<char> = Vec::new();
    append_str(&mut out, "{\"events\":[");
    let ghost head = out@;
    let ghost items = events@.map_values(|e: StoredBlockEvent| event_json(e));
    let mut i: usize = 0;
    while i < events.len()
        invariant
            i <= events@.len(),
            items == events@.map_values(|e: StoredBlockEvent| event_json(e)),
            out@ == head + join_commas(items.take(i as int)),
        decreases events.len() - i,
    {
        let ghost before = out@;
        if i > 0 {
            append_str(&mut out, ",");
        }
        push_event_json(&mut out, &events[i]);
        i = i + 1;
        assert(items.take(i as int).drop_last() =~= items.take(i - 1));
        assert(out@ =~= head + join_commas(items.take(i as int)));
    }
    assert(items.take(events@.len() as int) =~= items);
    append_str(&mut out, "]}");
    assert(out@ =~= events_json(events@));
    string_from_chars(out.as_slice())
}

/// The first fields of a blocked-domain summary in JSON: domain, count and
/// last time (the fields keep the indentation of the template they are
/// written from).
pub open spec fn summary_json_head(x: BlockedDomainSummary) -> Seq<char> {
    "{        \"domain\":"@ + json_string(x.domain@) + ",        \"block_count\":"@
        + signed_decimal(x.block_count as int) + ",        \"last_blocked_at_unix\":"@
        + signed_decimal(x.last_blocked_at_unix as int)
}

/// The rule fields of a blocked-domain summary in JSON, and the closing brace.
pub open spec fn summary_json_tail(x: BlockedDomainSummary) -> Seq<char> {
    ",        \"matched_rule\":"@ + json_optional(opt_string_view(x.matched_rule))
        + ",        \"rule_source\":"@ + json_optional(opt_string_view(x.rule_source))
        + ",        \"category\":"@ + json_optional(opt_string_view(x.category)) + "        }"@
}

/// A blocked-domain summary as a JSON object.
pub open spec fn summary_json(x: BlockedDomainSummary) -> Seq<char> {
    summary_json_head(x) + summary_json_tail(x)
}

fn push_summary_json_head(out: &mut Vec<char>, x: &BlockedDomainSummary)
    ensures
        final(out)@ == old(out)@ + summary_json_head(*x),
{
    append_str(out, "{        \"domain\":");
    push_json_string(out, x.domain.as_str());
    append_str(out, ",        \"block_count\":");
    push_signed_decimal(out, x.block_count);
    append_str(out, ",        \"last_blocked_at_unix\":");
    push_signed_decimal(out, x.last_blocked_at_unix);
    assert(final(out)@ =~= old(out)@ + summary_json_head(*x));
}

fn push_summary_json_tail(out: &mut Vec<char>, x: &BlockedDomainSummary)
    ensures
        final(out)@ == old(out)@ + summary_json_tail(*x),
{
    append_str(out, ",        \"matched_rule\":");
    push_json_optional(out, &x.matched_rule);
    append_str(out, ",        \"rule_source\":");
    push_json_optional(out, &x.rule_source);
    append_str(out, ",        \"category\":");
    push_json_optional(out, &x.category);
    append_str(out, "        }");
    assert(final(out)@ =~= old(out)@ + summary_json_tail(*x));
}

fn push_summary_json(out: &mut Vec<char>, x: &BlockedDomainSummary)
    ensures
        final(out)@ == old(out)@ + summary_json(*x),
{
    push_summary_json_head(out, x);
    push_summary_json_tail(out, x);
    assert(final(out)@ =~= old(out)@ + summary_json(*x));
}

/// A blocked-domain summary as a JSON object.
pub fn blocked_domain_summary_to_json(summary: &BlockedDomainSummary) -> (r: String)
    ensures
        r@ == summary_json(*summary),
{
    let mut out: Vec<char> = Vec::new();
    push_summary_json(&mut out, summary);
    assert(out@ =~= summary_json(*summary));
    string_from_chars(out.as_slice())
}

/// A list of blocked-domain summaries as JSON.
pub open spec fn summaries_json(xs: Seq<BlockedDomainSummary>) -> Seq<char> {
    "{\"blocked_domains\":["@ + join_commas(
        xs.map_values(|x: BlockedDomainSummary| summary_json(x)),
    ) + "]}"@
}

/// The summaries as a JSON object `{"blocked_domains":[...]}`.
pub fn blocked_domain_summaries_to_json(summaries: &[BlockedDomainSummary]) -> (r: String)
    ensures
        r@ == summaries_json(summaries@),
{
    let mut out: Vec<char> = Vec::new();
    append_str(&mut out, "{\"blocked_domains\":[");
    let ghost head = out@;
    let ghost items = summaries@.map_values(|x: BlockedDomainSummary| summary_json(x));
    let mut i: usize = 0;
    while i < summaries.len()
        invariant
            i <= summaries@.len(),
            items == summaries@.map_values(|x: BlockedDomainSummary| summary_json(x)),
            out@ == head + join_commas(items.take(i as int)),
        decreases summaries.len() - i,
    {
        if i > 0 {
            append_str(&mut out, ",");
        }
        push_summary_json(&mut out, &summaries[i]);
        i = i + 1;
        assert(items.take(i as int).drop_last() =~= items.take(i - 1));
        assert(out@ =~= head + join_commas(items.take(i as int)));
    }
    assert(items.take(summaries@.len() as int) =~= items);
    append_str(&mut out, "]}");
    assert(out@ =~= summaries_json(summaries@));
    string_from_chars(out.as_slice())
}

/// A list of domains under `key` as JSON: `{"key":["a","b"]}` (the key is
/// written as given).
pub open spec fn domains_json(key: Seq<char>, domains: Seq<String>) -> Seq<char> {
    "{\""@ + key + "\":["@ + join_commas(domains.map_values(|d: String| json_string(d@))) + "]}"@
}

/// The domains as a JSON object under `key`.
pub fn domains_to_json(key: &str, domains: &[String]) -> (r: String)
    ensures
        r@ == domains_json(key@, domains@),
{
    let mut out: Vec<char> = Vec::new();
    append_str(&mut out, "{\"");
    append_str(&mut out, key);
    append_str(&mut out, "\":[");
    let ghost head = out@;
    let ghost items = domains@.map_values(|d: String| json_string(d@));
    let mut i: usize = 0;
    while i < domains.len()
        invariant
            i <= domains@.len(),
            items == domains@.map_values(|d: String| json_string(d@)),
            out@ == head + join_commas(items.take(i as int)),
        decreases domains.len() - i,
    {
        if i > 0 {
            append_str(&mut out, ",");
        }
        push_json_string(&mut out, domains[i].as_str());
        i = i + 1;
        assert(items.take(i as int).drop_last() =~= items.take(i - 1));
        assert(out@ =~= head + join_commas(items.take(i as int)));
    }
    assert(items.take(domains@.len() as int) =~= items);
    append_str(&mut out, "]}");
    assert(out@ =~= domains_json(key@, domains@));
    string_from_chars(out.as_slice())
}

// ---------------------------------------------------------------------------
// Responses
// ---------------------------------------------------------------------------

/// An HTTP response.
#[derive(Debug, Clone)]
pub struct HttpResponse {
    pub status_code: u16,
    pub status_text: &'static str,
    pub content_type: &'static str,
    pub body: String,
}

/// A response, by its views.
pub struct ResponseView {
    pub status_code: u16,
    pub status_text: Seq<char>,
    pub content_type: Seq<char>,
    pub body: Seq<char>,
}

impl View for HttpResponse {
    type V = ResponseView;

    open spec fn view(&self) -> ResponseView {
        ResponseView {
            status_code: self.status_code,
            status_text: self.status_text@,
            content_type: self.content_type@,
            body: self.body@,
        }
    }
}

/// A JSON response.
pub open spec fn json_response(code: u16, text: Seq<char>, body: Seq<char>) -> ResponseView {
    ResponseView {
        status_code: code,
        status_text: text,
        content_type: "application/json; charset=utf-8"@,
        body,
    }
}

/// A JSON error response `{"ok":false,"error":"<message>"}`.
pub open spec fn error_json_response(code: u16, text: Seq<char>, message: Seq<char>) -> ResponseView {
    json_response(code, text, "{\"ok\":false,\"error\":"@ + json_string(message) + "}"@)
}

/// The text of a response on the wire (the length is the body's UTF-8 length,
/// as a `usize`).
pub open spec fn http_text(r: ResponseView) -> Seq<char> {
    "HTTP/1.1 "@ + decimal(r.status_code as nat) + " "@ + r.status_text + "\r\nContent-Type: "@
        + r.content_type + "\r\nContent-Length: "@ + decimal((encode_utf8(r.body).len() as usize) as nat)
        + "\r\nAccess-Control-Allow-Origin: *\r\nAccess-Control-Allow-Methods: GET, POST, OPTIONS\r\nAccess-Control-Allow-Headers: Content-Type\r\nConnection: close\r\n\r\n"@
        + r.body
}

impl HttpResponse {
    /// A JSON response.
    pub fn json(status_code: u16, status_text: &'static str, body: String) -> (r: Self)
        ensures
            r@ == json_response(status_code, status_text@, body@),
    {
        HttpResponse {
            status_code,
            status_text,
            content_type: "application/json; charset=utf-8",
            body,
        }
    }

    /// An empty `204 No Content` response.
    pub fn no_content() -> (r: Self)
        ensures
            r@ == (ResponseView {
                status_code: 204,
                status_text: "No Content"@,
                content_type: "text/plain; charset=utf-8"@,
                body: Seq::empty(),
            }),
    {
        HttpResponse {
            status_code: 204,
            status_text: "No Content",
            content_type: "text/plain; charset=utf-8",
            body: String::new(),
        }
    }

    /// The response as the bytes sent on the wire (UTF-8).
    pub fn to_http_bytes(&self) -> (b: Vec<u8>)
        ensures
            b@ == encode_utf8(http_text(self@)),
    {
        let mut out: Vec<char> = Vec::new();
        append_str(&mut out, "HTTP/1.1 ");
        push_decimal(&mut out, self.status_code as u64);
        append_str(&mut out, " ");
        append_str(&mut out, self.status_text);
        append_str(&mut out, "\r\nContent-Type: ");
        append_str(&mut out, self.content_type);
        append_str(&mut out, "\r\nContent-Length: ");
        let body_len = self.body.as_str().len();
        push_decimal(&mut out, body_len as u64);
        append_str(
            &mut out,
            "\r\nAccess-Control-Allow-Origin: *\r\nAccess-Control-Allow-Methods: GET, POST, OPTIONS\r\nAccess-Control-Allow-Headers: Content-Type\r\nConnection: close\r\n\r\n",
        );
        append_str(&mut out, self.body.as_str());
        assert(out@ =~= http_text(self@));
        let text = string_from_chars(out.as_slice());
        text.as_str().as_bytes_vec()
    }
}

/// A JSON error response.
pub fn error_response(status_code: u16, status_text: &'static str, message: &str) -> (r:
    HttpResponse)
    ensures
        r@ == error_json_response(status_code, status_text@, message@),
{
    let mut out: Vec<char> = Vec::new();
    append_str(&mut out, "{\"ok\":false,\"error\":\"");
    push_json_escaped(&mut out, message);
    append_str(&mut out, "\"}");
    proof {
        reveal_strlit("{\"ok\":false,\"error\":\"");
        reveal_strlit("{\"ok\":false,\"error\":");
        reveal_strlit("\"");
        reveal_strlit("\"}");
        reveal_strlit("}");
    }
    assert(out@ =~= "{\"ok\":false,\"error\":"@ + json_string(message@) + "}"@);
    HttpResponse::json(status_code, status_text, string_from_chars(out.as_slice()))
}

// ---------------------------------------------------------------------------
// Query strings
// ---------------------------------------------------------------------------

/// The value of an ASCII hexadecimal digit.
pub open spec fn hex_value(b: u8) -> Option<u8> {
    if 48 <= b <= 57 {
        Some((b - 48) as u8)
    } else if 97 <= b <= 102 {
        Some((b - 87) as u8)
    } else if 65 <= b <= 70 {
        Some((b - 55) as u8)
    } else {
        None
    }
}

fn from_hex(byte: u8) -> (r: Option<u8>)
    ensures
        r == hex_value(byte),
{
    if 48 <= byte && byte <= 57 {
        Some(byte - 48)
    } else if 97 <= byte && byte <= 102 {
        Some(byte - 87)
    } else if 65 <= byte && byte <= 70 {
        Some(byte - 55)
    } else {
        None
    }
}

/// Percent-decoding of bytes: `+` is a space, `%` and two hexadecimal
/// digits is the byte they spell, anything else stays.
pub open spec fn percent_decode_bytes(b: Seq<u8>) -> Seq<u8>
    decreases b.len(),
{
    if b.len() == 0 {
        Seq::empty()
    } else if b[0] == 43 {
        seq![32u8] + percent_decode_bytes(b.skip(1))
    } else if b[0] == 37 && 2 < b.len() && hex_value(b[1]) is Some && hex_value(b[2]) is Some {
        seq![(hex_value(b[1])->Some_0 * 16 + hex_value(b[2])->Some_0) as u8]
            + percent_decode_bytes(b.skip(3))
    } else {
        seq![b[0]] + percent_decode_bytes(b.skip(1))
    }
}

/// What `String::from_utf8_lossy` makes of bytes that are not valid UTF-8:
/// the text with each invalid sequence replaced by U+FFFD.
pub uninterp spec fn lossy_decoding(bytes: Seq<u8>) -> Seq<char>;

/// What `String::from_utf8_lossy` makes of bytes: the decoded text when they
/// are valid UTF-8, else their lossy decoding.
pub open spec fn utf8_lossy(bytes: Seq<u8>) -> Seq<char> {
    if valid_utf8(bytes) {
        decode_utf8(bytes)
    } else {
        lossy_decoding(bytes)
    }
}

/// `String::from_utf8_lossy`. For valid UTF-8 it gives the decoded text, as
/// its documentation says; for other bytes the result is named by
/// `lossy_decoding`, a function of the bytes alone.
#[verifier::external_body]
fn string_from_utf8_lossy(bytes: &[u8]) -> (r: String)
    ensures
        valid_utf8(bytes@) ==> r@ == decode_utf8(bytes@),
        !valid_utf8(bytes@) ==> r@ == lossy_decoding(bytes@),
{
    String::from_utf8_lossy(bytes).into_owned()
}

/// Percent-decodes the bytes `b[lo..hi]` into a text.
fn percent_decode_range(b: &[u8], lo: usize, hi: usize) -> (r: String)
    requires
        lo <= hi <= b@.len(),
    ensures
        r@ == utf8_lossy(percent_decode_bytes(b@.subrange(lo as int, hi as int))),
{
    let ghost whole = b@.subrange(lo as int, hi as int);
    let mut out: Vec<u8> = Vec::new();
    let mut i = lo;
    while i < hi
        invariant
            lo <= i <= hi <= b@.len(),
            whole == b@.subrange(lo as int, hi as int),
            percent_decode_bytes(whole) == out@ + percent_decode_bytes(b@.subrange(i as int, hi as int)),
        decreases hi - i,
    {
        let ghost rest = b@.subrange(i as int, hi as int);
        if b[i] == 43 {
            out.push(32);
            assert(rest.skip(1) =~= b@.subrange(i + 1, hi as int));
            i = i + 1;
        } else if b[i] == 37 && 2 < hi - i && from_hex(b[i + 1]).is_some() && from_hex(
            b[i + 2],
        ).is_some() {
            let high = from_hex(b[i + 1]).unwrap();
            let low = from_hex(b[i + 2]).unwrap();
            out.push(high * 16 + low);
            assert(rest.skip(3) =~= b@.subrange(i + 3, hi as int));
            i = i + 3;
        } else {
            out.push(b[i]);
            assert(rest.skip(1) =~= b@.subrange(i + 1, hi as int));
            i = i + 1;
        }
        assert(percent_decode_bytes(whole) =~= out@ + percent_decode_bytes(
            b@.subrange(i as int, hi as int),
        ));
    }
    assert(percent_decode_bytes(b@.subrange(hi as int, hi as int)) =~= Seq::<u8>::empty());
    assert(out@ =~= percent_decode_bytes(whole));
    string_from_utf8_lossy(out.as_slice())
}

/// What percent-decoding a text gives.
pub open spec fn percent_decode_spec(s: Seq<char>) -> Seq<char> {
    utf8_lossy(percent_decode_bytes(encode_utf8(s)))
}

/// Percent-decodes a text (`+` for spaces, `%XX` escapes).
pub fn percent_decode(input: &str) -> (r: String)
    ensures
        r@ == percent_decode_spec(input@),
{
    let b = input.as_bytes();
    assert(b@.subrange(0, b@.len() as int) =~= b@);
    percent_decode_range(b, 0, b.len())
}

/// Decoding bytes without `%` or `+` leaves them as they are.
proof fn lemma_plain_bytes_decode_to_themselves(b: Seq<u8>)
    requires
        forall|k: int| 0 <= k < b.len() ==> #[trigger] b[k] != 37 && b[k] != 43,
    ensures
        percent_decode_bytes(b) == b,
    decreases b.len(),
{
    if b.len() > 0 {
        let rest = b.skip(1);
        assert forall|k: int| 0 <= k < rest.len() implies #[trigger] rest[k] != 37 && rest[k]
            != 43 by {
            assert(rest[k] == b[k + 1]);
        }
        lemma_plain_bytes_decode_to_themselves(rest);
        assert(b[0] != 37 && b[0] != 43);
        assert(seq![b[0]] + rest =~= b);
    }
}

/// Percent-decoding a text with no `%` and no `+` gives the text back.
pub proof fn law_plain_text_decodes_to_itself(s: Seq<char>)
    requires
        forall|k: int| 0 <= k < s.len() ==> #[trigger] s[k] != '%' && s[k] != '+',
    ensures
        percent_decode_spec(s) == s,
{
    let b = encode_utf8(s);
    crate::text::lemma_encode_avoids_ascii_char(s, '%');
    crate::text::lemma_encode_avoids_ascii_char(s, '+');
    lemma_plain_bytes_decode_to_themselves(b);
    encode_utf8_valid_utf8(s);
    encode_utf8_decode_utf8(s);
}

/// The pieces of `b` separated by `sep`, from position `i` on, the current
/// piece starting at `start` (empty pieces included).
pub open spec fn split_from(b: Seq<u8>, sep: u8, start: int, i: int) -> Seq<Seq<u8>>
    decreases b.len() - i,
{
    if i < 0 || i >= b.len() {
        seq![b.subrange(start, b.len() as int)]
    } else if b[i] == sep {
        seq![b.subrange(start, i)] + split_from(b, sep, i + 1, i + 1)
    } else {
        split_from(b, sep, start, i + 1)
    }
}

/// First index at or after `i` holding the byte `x`.
pub open spec fn byte_index_from(b: Seq<u8>, x: u8, i: int) -> Option<int>
    decreases b.len() - i,
{
    if i < 0 || i >= b.len() {
        None
    } else if b[i] == x {
        Some(i)
    } else {
        byte_index_from(b, x, i + 1)
    }
}

/// A query part split at its first `=` into name and value (an empty value
/// when there is no `=`).
pub open spec fn name_value(part: Seq<u8>) -> (Seq<u8>, Seq<u8>) {
    match byte_index_from(part, 61, 0) {
        Some(i) => (part.take(i), part.skip(i + 1)),
        None => (part, Seq::empty()),
    }
}

/// The decoded value of the first part whose decoded name is `key`.
pub open spec fn param_in(parts: Seq<Seq<u8>>, key: Seq<char>) -> Option<Seq<char>>
    decreases parts.len(),
{
    if parts.len() == 0 {
        None
    } else if utf8_lossy(percent_decode_bytes(name_value(parts[0]).0)) == key {
        Some(utf8_lossy(percent_decode_bytes(name_value(parts[0]).1)))
    } else {
        param_in(parts.drop_first(), key)
    }
}

/// The value of the query parameter `key`: the parts of the query are
/// separated by `&`, and names and values are percent-decoded.
pub open spec fn query_param_spec(query: Option<Seq<char>>, key: Seq<char>) -> Option<Seq<char>> {
    match query {
        None => None,
        Some(q) => param_in(split_from(encode_utf8(q), 38, 0, 0), key),
    }
}

/// Decodes the name and value of the part `b[lo..hi]`; the value when the
/// name is `key`.
fn part_value(b: &[u8], lo: usize, hi: usize, key: &String) -> (r: Option<String>)
    requires
        lo <= hi <= b@.len(),
    ensures
        ({
            let (n, v) = name_value(b@.subrange(lo as int, hi as int));
            if utf8_lossy(percent_decode_bytes(n)) == key@ {
                r is Some && r->Some_0@ == utf8_lossy(percent_decode_bytes(v))
            } else {
                r is None
            }
        }),
{
    let ghost part = b@.subrange(lo as int, hi as int);
    let mut eq: usize = lo;
    while eq < hi && b[eq] != 61
        invariant
            lo <= eq <= hi <= b@.len(),
            part == b@.subrange(lo as int, hi as int),
            byte_index_from(part, 61, 0) == byte_index_from(part, 61, eq - lo),
        decreases hi - eq,
    {
        eq = eq + 1;
    }
    if eq < hi {
        assert(part.take(eq - lo) =~= b@.subrange(lo as int, eq as int));
        assert(part.skip(eq - lo + 1) =~= b@.subrange(eq + 1, hi as int));
        let name = percent_decode_range(b, lo, eq);
        if name == *key {
            Some(percent_decode_range(b, eq + 1, hi))
        } else {
            None
        }
    } else {
        let name = percent_decode_range(b, lo, hi);
        if name == *key {
            assert(percent_decode_bytes(Seq::<u8>::empty()) =~= percent_decode_bytes(
                b@.subrange(hi as int, hi as int),
            ));
            Some(percent_decode_range(b, hi, hi))
        } else {
            None
        }
    }
}

/// The value of a query parameter.
pub fn query_param(query: Option<&str>, key: &str) -> (r: Option<String>)
    ensures
        match query_param_spec(crate::rule::opt_str_view(query), key@) {
            Some(v) => r is Some && r->Some_0@ == v,
            None => r is None,
        },
{
    let q = match query {
        Some(q) => q,
        None => return None,
    };
    let key_string = key.to_owned();
    let b = q.as_bytes();
    let ghost bytes = b@;
    assert(bytes == encode_utf8(q@));
    let n = b.len();
    let mut start: usize = 0;
    let mut i: usize = 0;
    while i < n
        invariant
            n == b@.len(),
            bytes == b@,
            bytes == encode_utf8(q@),
            crate::rule::opt_str_view(query) == Some(q@),
            key_string@ == key@,
            start <= i <= n,
            param_in(split_from(bytes, 38, 0, 0), key@) == param_in(
                split_from(bytes, 38, start as int, i as int),
                key@,
            ),
        decreases n - i,
    {
        if b[i] == 38 {
            let ghost parts = split_from(bytes, 38, start as int, i as int);
            assert(parts[0] == bytes.subrange(start as int, i as int));
            assert(parts.drop_first() =~= split_from(bytes, 38, i + 1, i + 1));
            let found = part_value(b, start, i, &key_string);
            assert(parts.len() > 0);
            if let Some(v) = found {
                assert(param_in(parts, key@) == Some(v@));
                return Some(v);
            }
            assert(param_in(parts, key@) == param_in(parts.drop_first(), key@));
            start = i + 1;
        }
        i = i + 1;
    }
    let ghost parts = split_from(bytes, 38, start as int, n as int);
    assert(parts =~= seq![bytes.subrange(start as int, n as int)]);
    assert(parts.drop_first() =~= Seq::<Seq<u8>>::empty());
    let found = part_value(b, start, n, &key_string);
    assert(parts[0] == bytes.subrange(start as int, n as int));
    assert(param_in(parts.drop_first(), key@) is None);
    found
}

// ---------------------------------------------------------------------------
// Requests
// ---------------------------------------------------------------------------

/// Why the API server failed on a connection.
#[derive(Debug)]
pub enum ApiServerError {
    Io(std::io::Error),
    Db(String),
    InvalidRequest(String),
}

impl From<std::io::Error> for ApiServerError {
    fn from(error: std::io::Error) -> (r: Self) {
        ApiServerError::Io(error)
    }
}

impl vstd::std_specs::convert::FromSpecImpl<std::io::Error> for ApiServerError {
    open spec fn obeys_from_spec() -> bool {
        true
    }

    open spec fn from_spec(error: std::io::Error) -> Self {
        ApiServerError::Io(error)
    }
}

impl ApiServerError {
    /// The message of a server error: `I/O error: <text>`,
    /// `database error: <message>` or `invalid request: <message>`.
    pub fn message(&self) -> (s: String)
        ensures
            self matches ApiServerError::Db(m) ==> s@ == "database error: "@ + m@,
            self matches ApiServerError::InvalidRequest(m) ==> s@ == "invalid request: "@ + m@,
            self is Io ==> "I/O error: "@.is_prefix_of(s@),
    {
        let mut out: Vec<char> = Vec::new();
        match self {
            ApiServerError::Io(e) => {
                append_str(&mut out, "I/O error: ");
                let ghost head = out@;
                append_str(&mut out, crate::server::io_error_text(e).as_str());
                assert(out@.subrange(0, head.len() as int) =~= head);
            },
            ApiServerError::Db(m) => {
                append_str(&mut out, "database error: ");
                append_str(&mut out, m.as_str());
            },
            ApiServerError::InvalidRequest(m) => {
                append_str(&mut out, "invalid request: ");
                append_str(&mut out, m.as_str());
            },
        }
        string_from_chars(out.as_slice())
    }
}

/// The method and target of a request line.
#[derive(Debug, Clone, PartialEq, Eq)]
pub struct HttpRequest {
    pub method: String,
    pub target: String,
}

/// The first line of a text, if it has one.
pub open spec fn first_line(s: Seq<char>) -> Option<Seq<char>> {
    let ls = lines(s);
    if ls.len() == 0 {
        None
    } else {
        Some(ls[0])
    }
}

/// The method and target of a request text, or why there are none.
pub open spec fn request_parts(s: Seq<char>) -> Result<(Seq<char>, Seq<char>), Seq<char>> {
    match first_line(s) {
        None => Err("missing request line"@),
        Some(line) => match first_word(line) {
            None => Err("missing method"@),
            Some(m) => match first_word(after_first_word(line)) {
                None => Err("missing target"@),
                Some(t) => Ok((m, t)),
            },
        },
    }
}

proof fn lemma_lines_from_first(s: Seq<char>, i: int)
    requires
        0 <= i <= s.len(),
        forall|j: int| 0 <= j < i ==> s[j] != '\n',
    ensures
        lines_from(s, 0, i) == match index_of_from(s, '\n', i) {
            Some(k) => seq![strip_cr(s.subrange(0, k))] + lines_from(s, k + 1, k + 1),
            None => if 0 < s.len() {
                seq![s.subrange(0, s.len() as int)]
            } else {
                Seq::empty()
            },
        },
    decreases s.len() - i,
{
    if i < s.len() && s[i] != '\n' {
        lemma_lines_from_first(s, i + 1);
    }
}

/// Reads the method and target from the first line of a request.
pub fn parse_http_request(request_text: &str) -> (r: Result<HttpRequest, ApiServerError>)
    ensures
        match request_parts(request_text@) {
            Ok((m, t)) => r matches Ok(req) && req.method@ == m && req.target@ == t,
            Err(msg) => r matches Err(ApiServerError::InvalidRequest(e)) && e@ == msg,
        },
{
    let v = chars_of(request_text);
    let n = v.len();
    let ghost s = v@;
    proof {
        lemma_lines_from_first(s, 0);
        lemma_index_of_from_bounds(s, '\n', 0);
    }
    let end = match index_of_range(v.as_slice(), 0, n, '\n') {
        Some(k) => {
            assert(s.subrange(0, n as int) =~= s);
            if k > 0 && v[k - 1] == '\r' {
                k - 1
            } else {
                k
            }
        },
        None => {
            assert(s.subrange(0, n as int) =~= s);
            if n == 0 {
                return Err(ApiServerError::InvalidRequest("missing request line".to_owned()));
            }
            n
        },
    };
    assert(first_line(s) == Some(s.subrange(0, end as int)));
    let (ma, mb) = match first_word_range(v.as_slice(), 0, end) {
        Some(w) => w,
        None => return Err(ApiServerError::InvalidRequest("missing method".to_owned())),
    };
    let (ta, tb) = match first_word_range(v.as_slice(), mb, end) {
        Some(w) => w,
        None => return Err(ApiServerError::InvalidRequest("missing target".to_owned())),
    };
    Ok(
        HttpRequest {
            method: crate::text::string_from_range(v.as_slice(), ma, mb),
            target: crate::text::string_from_range(v.as_slice(), ta, tb),
        },
    )
}

/// Reads the method and target from the bytes a connection received, taken
/// as UTF-8 with invalid sequences replaced.
pub fn parse_http_request_bytes(request_bytes: &[u8]) -> (r: Result<HttpRequest, ApiServerError>)
    ensures
        match request_parts(utf8_lossy(request_bytes@)) {
            Ok((m, t)) => r matches Ok(req) && req.method@ == m && req.target@ == t,
            Err(msg) => r matches Err(ApiServerError::InvalidRequest(e)) && e@ == msg,
        },
{
    let text = string_from_utf8_lossy(request_bytes);
    parse_http_request(text.as_str())
}

/// A target split at its first `?` into path and query.
pub open spec fn split_target_spec(target: Seq<char>) -> (Seq<char>, Option<Seq<char>>) {
    match index_of(target, '?') {
        Some(i) => (target.take(i), Some(target.skip(i + 1))),
        None => (target, None),
    }
}

/// Splits a target into its path and its query.
pub fn split_target(target: &str) -> (r: (&str, Option<&str>))
    ensures
        (r.0@, crate::rule::opt_str_view(r.1)) == split_target_spec(target@),
{
    let v = chars_of(target);
    proof {
        lemma_index_of_from_bounds(target@, '?', 0);
    }
    assert(v@.subrange(0, v@.len() as int) =~= v@);
    match index_of_range(v.as_slice(), 0, v.len(), '?') {
        Some(i) => {
            let n = v.len();
            let path = target.substring_char(0, i);
            let query = target.substring_char(i + 1, n);
            assert(target@.take(i as int) =~= target@.subrange(0, i as int));
            assert(target@.skip(i + 1) =~= target@.subrange(i + 1, n as int));
            (path, Some(query))
        },
        None => (target, None),
    }
}


/// What `str::parse::<i64>` gives for a text: the number, when the text is
/// one and it fits.
pub open spec fn parsed_i64(s: Seq<char>) -> Option<i64> {
    match signed_number(s) {
        Some(n) => if i64::MIN <= n <= i64::MAX {
            Some(n as i64)
        } else {
            None
        },
        None => None,
    }
}

/// `str::parse::<i64>`, its error dropped. As `i64::from_str_radix`
/// documents for radix 10, the text is read as an optional `+` or `-`
/// followed by ASCII digits only, and a value that does not fit is an error.
#[verifier::external_body]
pub(crate) fn parse_i64(s: &str) -> (r: Option<i64>)
    ensures
        r == parsed_i64(s@),
{
    s.parse::<i64>().ok()
}

// ---------------------------------------------------------------------------
// Routing
// ---------------------------------------------------------------------------

/// What a request asks the API for.
#[derive(Debug, Clone, PartialEq, Eq)]
pub enum ApiRoute {
    NoContent,
    Health,
    Events { limit: i64 },
    BlockedDomains { limit: i64 },
    Allowlist,
    Blocklist,
    Status,
    BlockedResponse,
    BlocklistAdd { domain: String },
    BlocklistRemove { domain: String },
    Allow { domain: String },
    Unallow { domain: String },
    ProtectionEnable,
    ProtectionDisable,
    BadRequest { message: String },
    NotFound,
}

pub enum RouteView {
    NoContent,
    Health,
    Events { limit: i64 },
    BlockedDomains { limit: i64 },
    Allowlist,
    Blocklist,
    Status,
    BlockedResponse,
    BlocklistAdd { domain: Seq<char> },
    BlocklistRemove { domain: Seq<char> },
    Allow { domain: Seq<char> },
    Unallow { domain: Seq<char> },
    ProtectionEnable,
    ProtectionDisable,
    BadRequest { message: Seq<char> },
    NotFound,
}

impl View for ApiRoute {
    type V = RouteView;

    open spec fn view(&self) -> RouteView {
        match self {
            ApiRoute::NoContent => RouteView::NoContent,
            ApiRoute::Health => RouteView::Health,
            ApiRoute::Events { limit } => RouteView::Events { limit: *limit },
            ApiRoute::BlockedDomains { limit } => RouteView::BlockedDomains { limit: *limit },
            ApiRoute::Allowlist => RouteView::Allowlist,
            ApiRoute::Blocklist => RouteView::Blocklist,
            ApiRoute::Status => RouteView::Status,
            ApiRoute::BlockedResponse => RouteView::BlockedResponse,
            ApiRoute::BlocklistAdd { domain } => RouteView::BlocklistAdd { domain: domain@ },
            ApiRoute::BlocklistRemove { domain } => RouteView::BlocklistRemove { domain: domain@ },
            ApiRoute::Allow { domain } => RouteView::Allow { domain: domain@ },
            ApiRoute::Unallow { domain } => RouteView::Unallow { domain: domain@ },
            ApiRoute::ProtectionEnable => RouteView::ProtectionEnable,
            ApiRoute::ProtectionDisable => RouteView::ProtectionDisable,
            ApiRoute::BadRequest { message } => RouteView::BadRequest { message: message@ },
            ApiRoute::NotFound => RouteView::NotFound,
        }
    }
}

/// The `limit` parameter as a number, 50 when absent or not a number.
pub open spec fn limit_of(query: Option<Seq<char>>) -> i64 {
    match query_param_spec(query, "limit"@) {
        Some(v) => match parsed_i64(v) {
            Some(n) => n,
            None => 50,
        },
        None => 50,
    }
}

/// A route that needs the `domain` parameter.
pub open spec fn with_domain(
    query: Option<Seq<char>>,
    missing: Seq<char>,
    make: spec_fn(Seq<char>) -> RouteView,
) -> RouteView {
    match query_param_spec(query, "domain"@) {
        Some(d) => make(d),
        None => RouteView::BadRequest { message: missing },
    }
}

/// The route of a request.
pub open spec fn route_spec(method: Seq<char>, target: Seq<char>) -> RouteView {
    let (path, query) = split_target_spec(target);
    let get = method == "GET"@;
    let post = method == "POST"@;
    if method == "OPTIONS"@ {
        RouteView::NoContent
    } else if get && path == "/health"@ {
        RouteView::Health
    } else if get && path == "/events"@ {
        RouteView::Events { limit: limit_of(query) }
    } else if get && path == "/blocked-domains"@ {
        RouteView::BlockedDomains { limit: limit_of(query) }
    } else if get && path == "/allowlist"@ {
        RouteView::Allowlist
    } else if get && path == "/blocklist"@ {
        RouteView::Blocklist
    } else if get && path == "/status"@ {
        RouteView::Status
    } else if get && path == "/blocked-response"@ {
        RouteView::BlockedResponse
    } else if post && path == "/blocklist/add"@ {
        with_domain(query, "missing domain"@, |d| RouteView::BlocklistAdd { domain: d })
    } else if post && path == "/blocklist/remove"@ {
        with_domain(query, "missing domain"@, |d| RouteView::BlocklistRemove { domain: d })
    } else if post && path == "/allow"@ {
        with_domain(query, "missing domain"@, |d| RouteView::Allow { domain: d })
    } else if post && path == "/unallow"@ {
        with_domain(
            query,
            "missing domain query parameter"@,
            |d| RouteView::Unallow { domain: d },
        )
    } else if post && path == "/protection/enable"@ {
        RouteView::ProtectionEnable
    } else if post && path == "/protection/disable"@ {
        RouteView::ProtectionDisable
    } else {
        RouteView::NotFound
    }
}

fn limit_param(query: Option<&str>) -> (r: i64)
    ensures
        r == limit_of(crate::rule::opt_str_view(query)),
{
    match query_param(query, "limit") {
        Some(v) => match parse_i64(v.as_str()) {
            Some(n) => n,
            None => 50,
        },
        None => 50,
    }
}

/// Decides what a request asks for.
pub fn route_api_request(request: &HttpRequest) -> (r: ApiRoute)
    ensures
        r@ == route_spec(request.method@, request.target@),
{
    let m = request.method.as_str();
    if str_is(m, "OPTIONS") {
        return ApiRoute::NoContent;
    }
    let (path, query) = split_target(request.target.as_str());
    let get = str_is(m, "GET");
    let post = str_is(m, "POST");
    if get && str_is(path, "/health") {
        ApiRoute::Health
    } else if get && str_is(path, "/events") {
        ApiRoute::Events { limit: limit_param(query) }
    } else if get && str_is(path, "/blocked-domains") {
        ApiRoute::BlockedDomains { limit: limit_param(query) }
    } else if get && str_is(path, "/allowlist") {
        ApiRoute::Allowlist
    } else if get && str_is(path, "/blocklist") {
        ApiRoute::Blocklist
    } else if get && str_is(path, "/status") {
        ApiRoute::Status
    } else if get && str_is(path, "/blocked-response") {
        ApiRoute::BlockedResponse
    } else if post && str_is(path, "/blocklist/add") {
        match query_param(query, "domain") {
            Some(domain) => ApiRoute::BlocklistAdd { domain },
            None => ApiRoute::BadRequest { message: "missing domain".to_owned() },
        }
    } else if post && str_is(path, "/blocklist/remove") {
        match query_param(query, "domain") {
            Some(domain) => ApiRoute::BlocklistRemove { domain },
            None => ApiRoute::BadRequest { message: "missing domain".to_owned() },
        }
    } else if post && str_is(path, "/allow") {
        match query_param(query, "domain") {
            Some(domain) => ApiRoute::Allow { domain },
            None => ApiRoute::BadRequest { message: "missing domain".to_owned() },
        }
    } else if post && str_is(path, "/unallow") {
        match query_param(query, "domain") {
            Some(domain) => ApiRoute::Unallow { domain },
            None => ApiRoute::BadRequest {
                message: "missing domain query parameter".to_owned(),
            },
        }
    } else if post && str_is(path, "/protection/enable") {
        ApiRoute::ProtectionEnable
    } else if post && str_is(path, "/protection/disable") {
        ApiRoute::ProtectionDisable
    } else {
        ApiRoute::NotFound
    }
}

// ---------------------------------------------------------------------------
// Answering
// ---------------------------------------------------------------------------

/// A route together with what the database gave for it (an error as its
/// message).
#[derive(Debug)]
pub enum ApiResult {
    NoContent,
    Health,
    BlockedResponse,
    NotFound,
    BadRequest { message: String },
    Events(Result<Vec<StoredBlockEvent>, String>),
    BlockedDomains(Result<Vec<BlockedDomainSummary>, String>),
    Allowlist(Result<Vec<String>, String>),
    Blocklist(Result<Vec<String>, String>),
    Status(Result<bool, String>),
    BlocklistAdded { domain: String, result: Result<bool, String> },
    BlocklistRemoved { domain: String, result: Result<bool, String> },
    Allowed { domain: String, result: Result<bool, String> },
    Unallowed { domain: String, result: Result<bool, String> },
    ProtectionEnabled(Result<(), String>),
    ProtectionDisabled(Result<(), String>),
}

/// A database failure: `500 Internal Server Error` with the message.
pub open spec fn db_failure(message: Seq<char>) -> ResponseView {
    error_json_response(500, "Internal Server Error"@, message)
}

/// The answer to a change of a domain list:
/// `{"ok":true,"domain":"<d>","<key>":<flag>}`.
pub open spec fn change_json(domain: Seq<char>, key: Seq<char>, flag: bool) -> Seq<char> {
    "{\"ok\":true,\"domain\":"@ + json_string(domain) + ",\""@ + key + "\":"@ + bool_text(flag)
        + "}"@
}

/// The answer for a change of a domain list.
pub open spec fn change_response(
    text: Seq<char>,
    domain: Seq<char>,
    key: Seq<char>,
    result: Result<bool, String>,
) -> ResponseView {
    match result {
        Ok(flag) => json_response(200, text, change_json(domain, key, flag)),
        Err(e) => db_failure(e@),
    }
}

/// The protection answer `{"ok":true,"protection_enabled":<b>}`.
pub open spec fn protection_json(enabled: bool) -> Seq<char> {
    "{\"ok\":true,\"protection_enabled\":"@ + bool_text(enabled) + "}"@
}

/// The response for each route and database outcome.
pub open spec fn api_response_spec(r: ApiResult) -> ResponseView {
    match r {
        ApiResult::NoContent => ResponseView {
            status_code: 204,
            status_text: "No Content"@,
            content_type: "text/plain; charset=utf-8"@,
            body: Seq::empty(),
        },
        ApiResult::Health => json_response(200, "OK"@, "{\"ok\":true,\"app\":\"The Blocker API\"}"@),
        ApiResult::BlockedResponse => json_response(
            500,
            "Internal Server Error"@,
            "{\"ok\":false,\"blocked\":true,\"error\":\"blocked_by_the_blocker\"}"@,
        ),
        ApiResult::NotFound => error_json_response(404, "Not Found"@, "route not found"@),
        ApiResult::BadRequest { message } => error_json_response(400, "Bad Request"@, message@),
        ApiResult::Events(Ok(events)) => json_response(200, "OK"@, events_json(events@)),
        ApiResult::BlockedDomains(Ok(xs)) => json_response(200, "OK"@, summaries_json(xs@)),
        ApiResult::Allowlist(Ok(ds)) => json_response(200, "OK"@, domains_json("allowlist"@, ds@)),
        ApiResult::Blocklist(Ok(ds)) => json_response(200, "OK"@, domains_json("blocklist"@, ds@)),
        ApiResult::Status(Ok(enabled)) => json_response(200, "ok"@, protection_json(enabled)),
        ApiResult::BlocklistAdded { domain, result } => change_response(
            "OK"@,
            domain@,
            "added"@,
            result,
        ),
        ApiResult::BlocklistRemoved { domain, result } => change_response(
            "Ok"@,
            domain@,
            "removed"@,
            result,
        ),
        ApiResult::Allowed { domain, result } => change_response("Ok"@, domain@, "added"@, result),
        ApiResult::Unallowed { domain, result } => change_response(
            "OK"@,
            domain@,
            "removed"@,
            result,
        ),
        ApiResult::ProtectionEnabled(Ok(())) => json_response(200, "OK"@, protection_json(true)),
        ApiResult::ProtectionDisabled(Ok(())) => json_response(200, "OK"@, protection_json(false)),
        ApiResult::Events(Err(e)) => db_failure(e@),
        ApiResult::BlockedDomains(Err(e)) => db_failure(e@),
        ApiResult::Allowlist(Err(e)) => db_failure(e@),
        ApiResult::Blocklist(Err(e)) => db_failure(e@),
        ApiResult::Status(Err(e)) => db_failure(e@),
        ApiResult::ProtectionEnabled(Err(e)) => db_failure(e@),
        ApiResult::ProtectionDisabled(Err(e)) => db_failure(e@),
    }
}

fn change_answer(
    status_text: &'static str,
    domain: &String,
    key: &str,
    result: &Result<bool, String>,
) -> (r: HttpResponse)
    ensures
        r@ == change_response(status_text@, domain@, key@, *result),
{
    match result {
        Ok(flag) => {
            let mut out: Vec<char> = Vec::new();
            append_str(&mut out, "{\"ok\":true,\"domain\":");
            push_json_string(&mut out, domain.as_str());
            append_str(&mut out, ",\"");
            append_str(&mut out, key);
            append_str(&mut out, "\":");
            push_bool(&mut out, *flag);
            append_str(&mut out, "}");
            assert(out@ =~= change_json(domain@, key@, *flag));
            HttpResponse::json(200, status_text, string_from_chars(out.as_slice()))
        },
        Err(e) => error_response(500, "Internal Server Error", e.as_str()),
    }
}

fn protection_body(enabled: bool) -> (s: String)
    ensures
        s@ == protection_json(enabled),
{
    let mut out: Vec<char> = Vec::new();
    append_str(&mut out, "{\"ok\":true,\"protection_enabled\":");
    push_bool(&mut out, enabled);
    append_str(&mut out, "}");
    string_from_chars(out.as_slice())
}

/// The response for a route and what the database gave for it.
pub fn api_response(result: &ApiResult) -> (r: HttpResponse)
    ensures
        r@ == api_response_spec(*result),
{
    match result {
        ApiResult::NoContent => HttpResponse::no_content(),
        ApiResult::Health => HttpResponse::json(
            200,
            "OK",
            "{\"ok\":true,\"app\":\"The Blocker API\"}".to_owned(),
        ),
        ApiResult::BlockedResponse => HttpResponse::json(
            500,
            "Internal Server Error",
            "{\"ok\":false,\"blocked\":true,\"error\":\"blocked_by_the_blocker\"}".to_owned(),
        ),
        ApiResult::NotFound => error_response(404, "Not Found", "route not found"),
        ApiResult::BadRequest { message } => error_response(400, "Bad Request", message.as_str()),
        ApiResult::Events(Ok(events)) => HttpResponse::json(200, "OK", events_to_json(events.as_slice())),
        ApiResult::BlockedDomains(Ok(xs)) => HttpResponse::json(
            200,
            "OK",
            blocked_domain_summaries_to_json(xs.as_slice()),
        ),
        ApiResult::Allowlist(Ok(ds)) => HttpResponse::json(
            200,
            "OK",
            domains_to_json("allowlist", ds.as_slice()),
        ),
        ApiResult::Blocklist(Ok(ds)) => HttpResponse::json(
            200,
            "OK",
            domains_to_json("blocklist", ds.as_slice()),
        ),
        ApiResult::Status(Ok(enabled)) => HttpResponse::json(200, "ok", protection_body(*enabled)),
        ApiResult::BlocklistAdded { domain, result } => change_answer("OK", domain, "added", result),
        ApiResult::BlocklistRemoved { domain, result } => change_answer(
            "Ok",
            domain,
            "removed",
            result,
        ),
        ApiResult::Allowed { domain, result } => change_answer("Ok", domain, "added", result),
        ApiResult::Unallowed { domain, result } => change_answer("OK", domain, "removed", result),
        ApiResult::ProtectionEnabled(Ok(())) => HttpResponse::json(200, "OK", protection_body(true)),
        ApiResult::ProtectionDisabled(Ok(())) => HttpResponse::json(200, "OK", protection_body(false)),
        ApiResult::Events(Err(e)) => error_response(500, "Internal Server Error", e.as_str()),
        ApiResult::BlockedDomains(Err(e)) => error_response(500, "Internal Server Error", e.as_str()),
        ApiResult::Allowlist(Err(e)) => error_response(500, "Internal Server Error", e.as_str()),
        ApiResult::Blocklist(Err(e)) => error_response(500, "Internal Server Error", e.as_str()),
        ApiResult::Status(Err(e)) => error_response(500, "Internal Server Error", e.as_str()),
        ApiResult::ProtectionEnabled(Err(e)) => error_response(500, "Internal Server Error", e.as_str()),
        ApiResult::ProtectionDisabled(Err(e)) => error_response(500, "Internal Server Error", e.as_str()),
    }
}


/// Protection is switched only by its two POST routes, each to its own
/// side: a request routes to `ProtectionEnable` exactly when it is a POST to
/// `/protection/enable` (any query), and to `ProtectionDisable` exactly when
/// it is a POST to `/protection/disable`.
pub proof fn law_protection_routes(method: Seq<char>, target: Seq<char>)
    ensures
        (route_spec(method, target) is ProtectionEnable) <==> (method == "POST"@
            && split_target_spec(target).0 == "/protection/enable"@),
        (route_spec(method, target) is ProtectionDisable) <==> (method == "POST"@
            && split_target_spec(target).0 == "/protection/disable"@),
{
    reveal_strlit("POST");
    reveal_strlit("GET");
    reveal_strlit("OPTIONS");
    reveal_strlit("/protection/enable");
    reveal_strlit("/protection/disable");
    reveal_strlit("/blocklist/add");
    reveal_strlit("/blocklist/remove");
    reveal_strlit("/allow");
    reveal_strlit("/unallow");
    let path = split_target_spec(target).0;
    if method == "POST"@ {
        assert("POST"@ != "OPTIONS"@) by {
            assert("POST"@.len() != "OPTIONS"@.len());
        }
        assert("POST"@ != "GET"@) by {
            assert("POST"@.len() != "GET"@.len());
        }
        if path == "/protection/enable"@ || path == "/protection/disable"@ {
            assert(path != "/blocklist/add"@) by {
                assert(path.len() != "/blocklist/add"@.len());
            }
            assert(path != "/blocklist/remove"@) by {
                assert(path.len() != "/blocklist/remove"@.len());
            }
            assert(path != "/allow"@) by {
                assert(path.len() != "/allow"@.len());
            }
            assert(path != "/unallow"@) by {
                assert(path.len() != "/unallow"@.len());
            }
        }
        assert("/protection/enable"@ != "/protection/disable"@) by {
            assert("/protection/enable"@.len() != "/protection/disable"@.len());
        }
    }
}

} // verus!
