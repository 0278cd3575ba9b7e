use blocker::api::{
    api_response, blocked_domain_summaries_to_json, blocked_domain_summary_to_json,
    domains_to_json, error_response, event_to_json, events_to_json, json_escape,
    json_optional_string, parse_http_request, parse_http_request_bytes, percent_decode,
    query_param, route_api_request, split_target, ApiResult, ApiRoute, ApiServerError,
    HttpRequest, HttpResponse,
};
use blocker::store::{BlockedDomainSummary, StoredBlockEvent};

fn request(method: &str, target: &str) -> HttpRequest {
    HttpRequest { method: method.to_string(), target: target.to_string() }
}

fn sample_event() -> StoredBlockEvent {
    StoredBlockEvent {
        id: 7,
        domain: "ads.example.com".to_string(),
        action: "blocked".to_string(),
        matched_rule: Some("example.com".to_string()),
        rule_source: None,
        category: Some("ad".to_string()),
        occurred_at_unix: -3,
    }
}

#[test]
fn parses_query_params() {
    let query = Some("domain=ads.example.com&limit=10");

    assert_eq!(query_param(query, "domain"), Some("ads.example.com".to_string()));
    assert_eq!(query_param(query, "limit"), Some("10".to_string()));
}

#[test]
fn decodes_percent_values() {
    assert_eq!(percent_decode("safe%2Eexample%2Ecom"), "safe.example.com");
    assert_eq!(percent_decode("hello+world"), "hello world");
}

#[test]
fn escapes_json_strings() {
    assert_eq!(json_escape(r#"a"b\c"#), r#"a\"b\\c"#);
}

#[test]
fn escapes_control_characters() {
    assert_eq!(json_escape("a\nb\rc\td\u{1}e\u{7f}"), "a\\nb\\rc\\td\\u0001e\\u007f");
    assert_eq!(json_escape("plain ü"), "plain ü");
}

#[test]
fn percent_decoding_keeps_broken_escapes() {
    assert_eq!(percent_decode("a%2"), "a%2");
    assert_eq!(percent_decode("%zz%41"), "%zzA");
    assert_eq!(percent_decode("%41%"), "A%");
    assert_eq!(percent_decode("%ff"), "\u{fffd}");
}

#[test]
fn query_params_decode_names_and_miss_absent_keys() {
    assert_eq!(query_param(Some("a%6Dt=1&amt=2"), "amt"), Some("1".to_string()));
    assert_eq!(query_param(Some("flag&x=y"), "flag"), Some(String::new()));
    assert_eq!(query_param(Some("x=y"), "domain"), None);
    assert_eq!(query_param(None, "domain"), None);
}

#[test]
fn optional_strings_are_null_or_quoted() {
    assert_eq!(json_optional_string(None), "null");
    assert_eq!(json_optional_string(Some("a\"b")), "\"a\\\"b\"");
}

#[test]
fn events_are_written_as_json() {
    let expected = r#"{"id":7,"domain":"ads.example.com","action":"blocked","matched_rule":"example.com","rule_source":null,"category":"ad","occurred_at_unix":-3}"#;
    assert_eq!(event_to_json(&sample_event()), expected);
    assert_eq!(events_to_json(&[]), r#"{"events":[]}"#);
    assert_eq!(
        events_to_json(&[sample_event(), sample_event()]),
        format!(r#"{{"events":[{expected},{expected}]}}"#)
    );
}

#[test]
fn summaries_are_written_as_json() {
    let summary = BlockedDomainSummary {
        domain: "ads.example.com".to_string(),
        block_count: 2,
        last_blocked_at_unix: 20,
        matched_rule: None,
        rule_source: Some("test".to_string()),
        category: None,
    };
    let expected = "{        \"domain\":\"ads.example.com\",        \"block_count\":2,        \"last_blocked_at_unix\":20,        \"matched_rule\":null,        \"rule_source\":\"test\",        \"category\":null        }";
    assert_eq!(blocked_domain_summary_to_json(&summary), expected);
    assert_eq!(
        blocked_domain_summaries_to_json(&[summary]),
        format!("{{\"blocked_domains\":[{expected}]}}")
    );
}

#[test]
fn domains_are_written_under_their_key() {
    let domains = vec!["a.com".to_string(), "b\"c".to_string()];
    assert_eq!(domains_to_json("allowlist", &domains), r#"{"allowlist":["a.com","b\"c"]}"#);
    assert_eq!(domains_to_json("blocklist", &[]), r#"{"blocklist":[]}"#);
}

#[test]
fn error_responses_carry_the_message() {
    let response = error_response(400, "Bad Request", "missing \"domain\"");
    assert_eq!(response.status_code, 400);
    assert_eq!(response.status_text, "Bad Request");
    assert_eq!(response.content_type, "application/json; charset=utf-8");
    assert_eq!(response.body, r#"{"ok":false,"error":"missing \"domain\""}"#);
}

#[test]
fn responses_are_written_as_http() {
    let response = HttpResponse::json(200, "OK", "{\"é\":1}".to_string());
    let text = String::from_utf8(response.to_http_bytes()).unwrap();
    assert_eq!(
        text,
        "HTTP/1.1 200 OK\r\nContent-Type: application/json; charset=utf-8\r\nContent-Length: 8\r\nAccess-Control-Allow-Origin: *\r\nAccess-Control-Allow-Methods: GET, POST, OPTIONS\r\nAccess-Control-Allow-Headers: Content-Type\r\nConnection: close\r\n\r\n{\"é\":1}"
    );
    let empty = HttpResponse::no_content();
    assert_eq!(empty.status_code, 204);
    assert_eq!(empty.status_text, "No Content");
    assert_eq!(empty.content_type, "text/plain; charset=utf-8");
    assert_eq!(empty.body, "");
}

#[test]
fn request_lines_give_method_and_target() {
    let parsed = parse_http_request("GET /events?limit=5 HTTP/1.1\r\nHost: x\r\n\r\n").unwrap();
    assert_eq!(parsed, request("GET", "/events?limit=5"));
    let spaced = parse_http_request("  POST\t/allow  \nrest").unwrap();
    assert_eq!(spaced, request("POST", "/allow"));
}

#[test]
fn malformed_requests_are_refused() {
    match parse_http_request("") {
        Err(ApiServerError::InvalidRequest(m)) => assert_eq!(m, "missing request line"),
        other => panic!("unexpected {other:?}"),
    }
    match parse_http_request("\r\nGET / HTTP/1.1") {
        Err(ApiServerError::InvalidRequest(m)) => assert_eq!(m, "missing method"),
        other => panic!("unexpected {other:?}"),
    }
    match parse_http_request("GET\r\n") {
        Err(ApiServerError::InvalidRequest(m)) => assert_eq!(m, "missing target"),
        other => panic!("unexpected {other:?}"),
    }
}

#[test]
fn request_bytes_are_read_lossily() {
    let parsed = parse_http_request_bytes(b"GET /x\xff HTTP/1.1\r\n").unwrap();
    assert_eq!(parsed, request("GET", "/x\u{fffd}"));
}

#[test]
fn targets_split_at_the_first_question_mark() {
    assert_eq!(split_target("/events?limit=1?x"), ("/events", Some("limit=1?x")));
    assert_eq!(split_target("/health"), ("/health", None));
    assert_eq!(split_target("/a?"), ("/a", Some("")));
}

#[test]
fn requests_are_routed() {
    assert_eq!(route_api_request(&request("OPTIONS", "/anything")), ApiRoute::NoContent);
    assert_eq!(route_api_request(&request("GET", "/health")), ApiRoute::Health);
    assert_eq!(
        route_api_request(&request("GET", "/events?limit=10")),
        ApiRoute::Events { limit: 10 }
    );
    assert_eq!(
        route_api_request(&request("GET", "/events?limit=ten")),
        ApiRoute::Events { limit: 50 }
    );
    assert_eq!(
        route_api_request(&request("GET", "/blocked-domains")),
        ApiRoute::BlockedDomains { limit: 50 }
    );
    assert_eq!(route_api_request(&request("GET", "/status")), ApiRoute::Status);
    assert_eq!(
        route_api_request(&request("POST", "/allow?domain=a%2Ecom")),
        ApiRoute::Allow { domain: "a.com".to_string() }
    );
    assert_eq!(
        route_api_request(&request("POST", "/blocklist/add")),
        ApiRoute::BadRequest { message: "missing domain".to_string() }
    );
    assert_eq!(
        route_api_request(&request("POST", "/unallow?x=1")),
        ApiRoute::BadRequest { message: "missing domain query parameter".to_string() }
    );
    assert_eq!(
        route_api_request(&request("POST", "/protection/disable")),
        ApiRoute::ProtectionDisable
    );
    assert_eq!(route_api_request(&request("GET", "/allow")), ApiRoute::NotFound);
    assert_eq!(route_api_request(&request("DELETE", "/events")), ApiRoute::NotFound);
}

#[test]
fn api_results_become_responses() {
    let health = api_response(&ApiResult::Health);
    assert_eq!(health.status_code, 200);
    assert_eq!(health.body, r#"{"ok":true,"app":"The Blocker API"}"#);

    let status = api_response(&ApiResult::Status(Ok(false)));
    assert_eq!(status.status_text, "ok");
    assert_eq!(status.body, r#"{"ok":true,"protection_enabled":false}"#);

    let removed = api_response(&ApiResult::BlocklistRemoved {
        domain: "a.com".to_string(),
        result: Ok(true),
    });
    assert_eq!(removed.status_text, "Ok");
    assert_eq!(removed.body, r#"{"ok":true,"domain":"a.com","removed":true}"#);

    let added = api_response(&ApiResult::BlocklistAdded {
        domain: "a.com".to_string(),
        result: Ok(false),
    });
    assert_eq!(added.status_text, "OK");
    assert_eq!(added.body, r#"{"ok":true,"domain":"a.com","added":false}"#);

    let failed = api_response(&ApiResult::Allowlist(Err("disk full".to_string())));
    assert_eq!(failed.status_code, 500);
    assert_eq!(failed.status_text, "Internal Server Error");
    assert_eq!(failed.body, r#"{"ok":false,"error":"disk full"}"#);

    let blocked = api_response(&ApiResult::BlockedResponse);
    assert_eq!(blocked.status_code, 500);
    assert_eq!(blocked.body, r#"{"ok":false,"blocked":true,"error":"blocked_by_the_blocker"}"#);

    let missing = api_response(&ApiResult::NotFound);
    assert_eq!(missing.status_code, 404);
    assert_eq!(missing.body, r#"{"ok":false,"error":"route not found"}"#);

    let listed = api_response(&ApiResult::Blocklist(Ok(vec!["x.com".to_string()])));
    assert_eq!(listed.body, r#"{"blocklist":["x.com"]}"#);

    let enabled = api_response(&ApiResult::ProtectionEnabled(Ok(())));
    assert_eq!(enabled.body, r#"{"ok":true,"protection_enabled":true}"#);

    let none = api_response(&ApiResult::NoContent);
    assert_eq!(none.status_code, 204);
}

#[test]
fn server_errors_have_messages() {
    assert_eq!(ApiServerError::Db("locked".to_string()).message(), "database error: locked");
    assert_eq!(
        ApiServerError::InvalidRequest("missing target".to_string()).message(),
        "invalid request: missing target"
    );
    let io = ApiServerError::from(std::io::Error::new(std::io::ErrorKind::Other, "reset"));
    assert_eq!(io.message(), "I/O error: reset");
}

#[test]
fn plain_text_is_not_changed_by_decoding() {
    for text in ["ads.example.com", "bücher.de", "", "a=b&c", "日本"] {
        assert_eq!(percent_decode(text), text);
    }
}
