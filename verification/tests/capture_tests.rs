use moesif_wasm::config::{Config, EnvConfig};
use moesif_wasm::event::BodyValue;
use moesif_wasm::headers::{header_list_to_map, lookup, strip_pseudo_headers};
use moesif_wasm::http_callback::get_header;
use moesif_wasm::http_context::{body_bytes_to_value, EventHttpContext};

fn headers(items: &[(&str, &str)]) -> Vec<(String, String)> {
    items.iter().map(|(a, b)| (a.to_string(), b.to_string())).collect()
}

fn test_config(user_header: Option<&str>, company_header: Option<&str>) -> Config {
    let env = EnvConfig::from_options(
        Some("abc".to_string()),
        user_header.map(|h| h.to_string()),
        company_header.map(|h| h.to_string()),
        None,
        None,
        None,
        None,
        None,
        None,
    )
    .unwrap();
    Config { env, event_queue_id: 1 }
}

#[test]
fn request_headers_populate_the_record() {
    let mut ctx = EventHttpContext::new(test_config(Some("x-user-id"), None));
    ctx.on_http_request_headers(headers(&[
        (":path", "/api/users?limit=3"),
        (":method", "POST"),
        ("Host", "example.com"),
        ("X-API-Version", "v2"),
        ("Transfer-Encoding", "chunked"),
        ("X-User-Id", "u-42"),
        ("X-Forwarded-For", "10.1.2.3"),
    ]));
    assert_eq!(ctx.event.request.uri, "/api/users?limit=3");
    assert_eq!(ctx.event.request.verb, "POST");
    assert_eq!(ctx.event.request.api_version, Some("v2".to_string()));
    assert_eq!(ctx.event.request.transfer_encoding, Some("chunked".to_string()));
    assert_eq!(ctx.event.request.ip_address, Some("10.1.2.3".to_string()));
    assert_eq!(ctx.event.user_id, Some("u-42".to_string()));
    assert_eq!(ctx.event.company_id, None);
    // keys are lower-cased and pseudo-headers are stripped before storage
    assert_eq!(lookup(&ctx.event.request.headers, "host"), Some("example.com".to_string()));
    assert_eq!(lookup(&ctx.event.request.headers, ":path"), None);
    assert_eq!(lookup(&ctx.event.request.headers, ":method"), None);
}

#[test]
fn missing_method_defaults_to_get() {
    let mut ctx = EventHttpContext::new(test_config(None, None));
    ctx.on_http_request_headers(headers(&[("host", "example.com")]));
    assert_eq!(ctx.event.request.verb, "GET");
    assert_eq!(ctx.event.request.uri, "");
}

#[test]
fn body_is_classified_once_from_the_full_accumulation() {
    let mut ctx = EventHttpContext::new(test_config(None, None));
    ctx.on_http_request_headers(headers(&[("content-type", "application/json")]));
    // neither chunk alone is valid JSON; the concatenation is
    ctx.on_http_request_body(Some(b"{\"a\"".to_vec()), false);
    assert!(matches!(ctx.event.request.body, BodyValue::Null));
    ctx.on_http_request_body(None, false);
    ctx.on_http_request_body(Some(b":1}".to_vec()), true);
    assert!(matches!(ctx.event.request.body, BodyValue::Json(_)));
    if let BodyValue::Json(v) = &ctx.event.request.body {
        let expected: serde_json::Value = serde_json::from_str("{\"a\":1}").unwrap();
        assert_eq!(v, &expected);
    }
    assert!(ctx.request_body.is_empty());
}

#[test]
fn unparseable_json_body_is_base64_encoded() {
    let v = body_bytes_to_value(b"not json".to_vec(), Some(&"application/json".to_string()));
    match v {
        BodyValue::Encoded(s) => assert_eq!(s, "bm90IGpzb24="),
        other => panic!("expected an encoded body, got {:?}", kind_of(&other)),
    }
}

#[test]
fn non_json_body_is_kept_as_text() {
    let v = body_bytes_to_value(b"hello".to_vec(), Some(&"text/plain".to_string()));
    match v {
        BodyValue::Text(s) => assert_eq!(s, "hello"),
        other => panic!("expected a text body, got {:?}", kind_of(&other)),
    }
}

#[test]
fn invalid_utf8_text_body_is_decoded_lossily() {
    let v = body_bytes_to_value(vec![0xff, 0x61], None);
    match v {
        BodyValue::Text(s) => assert_eq!(s, "\u{FFFD}a"),
        other => panic!("expected a text body, got {:?}", kind_of(&other)),
    }
}

#[test]
fn empty_body_is_null() {
    let v = body_bytes_to_value(Vec::new(), Some(&"application/json".to_string()));
    assert!(matches!(v, BodyValue::Null));
}

fn kind_of(v: &BodyValue) -> &'static str {
    match v {
        BodyValue::Null => "null",
        BodyValue::Json(_) => "json",
        BodyValue::Encoded(_) => "encoded",
        BodyValue::Text(_) => "text",
    }
}

#[test]
fn response_status_is_parsed_or_zero() {
    let mut ctx = EventHttpContext::new(test_config(None, None));
    ctx.on_http_response_headers(headers(&[(":status", "404"), ("content-type", "text/plain")]));
    let resp = ctx.event.response.as_ref().unwrap();
    assert_eq!(resp.status, 404);
    assert_eq!(lookup(&resp.headers, ":status"), None);

    let mut ctx2 = EventHttpContext::new(test_config(None, None));
    ctx2.on_http_response_headers(headers(&[(":status", "abc")]));
    assert_eq!(ctx2.event.response.as_ref().unwrap().status, 0);

    let mut ctx3 = EventHttpContext::new(test_config(None, None));
    ctx3.on_http_response_headers(headers(&[]));
    assert_eq!(ctx3.event.response.as_ref().unwrap().status, 0);

    let mut ctx4 = EventHttpContext::new(test_config(None, None));
    ctx4.on_http_response_headers(headers(&[(":status", "+201")]));
    assert_eq!(ctx4.event.response.as_ref().unwrap().status, 201);

    let mut ctx5 = EventHttpContext::new(test_config(None, None));
    ctx5.on_http_response_headers(headers(&[(":status", "007")]));
    assert_eq!(ctx5.event.response.as_ref().unwrap().status, 7);
}

#[test]
fn response_body_accumulates_and_classifies_at_end_of_stream() {
    let mut ctx = EventHttpContext::new(test_config(None, None));
    ctx.on_http_response_headers(headers(&[(":status", "200"), ("content-type", "text/plain")]));
    ctx.on_http_response_body(Some(b"par".to_vec()), false);
    ctx.on_http_response_body(Some(b"tial".to_vec()), true);
    match &ctx.event.response.as_ref().unwrap().body {
        BodyValue::Text(s) => assert_eq!(s, "partial"),
        other => panic!("expected a text body, got {:?}", kind_of(other)),
    }
}

#[test]
fn later_entry_for_a_key_replaces_the_earlier_one() {
    let map = header_list_to_map(headers(&[("A", "1"), ("a", "2"), ("B", "3")]));
    assert_eq!(lookup(&map, "a"), Some("2".to_string()));
    assert_eq!(lookup(&map, "b"), Some("3".to_string()));
    assert_eq!(map.len(), 2);
}

#[test]
fn pseudo_headers_are_stripped() {
    let stripped = strip_pseudo_headers(headers(&[(":path", "/x"), ("host", "h")]));
    assert_eq!(lookup(&stripped, ":path"), None);
    assert_eq!(lookup(&stripped, "host"), Some("h".to_string()));
}

#[test]
fn get_header_ignores_ascii_case() {
    let hs = headers(&[("X-Moesif-Config-Etag", "e1"), ("other", "v")]);
    assert_eq!(get_header(&hs, "x-moesif-config-etag"), Some("e1".to_string()));
    assert_eq!(get_header(&hs, "X-MOESIF-CONFIG-ETAG"), Some("e1".to_string()));
    assert_eq!(get_header(&hs, "missing"), None);
}
