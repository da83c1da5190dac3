//! The policy on requests and responses.
use http::header::HeaderMap;
use http::HeaderValue;

use pouch::cache_store::{CacheKeyError, CachePolicy, Metadata};
use pouch::hook::ignore_filter::{compile_entries, IgnoreEntry};
use pouch::hook::policy::{
    after_lookup, evaluate, fetch_and_cache, fetch_and_cache_at, fetch_only, forward_response_headers,
    forwardable_headers, headers_for_sidecar, is_success, response_policy, sidecar_for, Decision,
    Evaluation, Upstream,
};
use pouch::hook::protocol_bypass::{
    request_bypass_reason, response_bypass_reason, RequestBypassReason, ResponseBypassReason,
};
use pouch::hook::websocket::is_websocket_upgrade;
use pouch::headers::{first_text, has_header};
use pouch::http_fetcher::upstream_headers;

fn headers(items: &[(&str, &str)]) -> HeaderMap {
    let mut headers = HeaderMap::new();
    for (name, value) in items {
        headers.insert(
            http::header::HeaderName::from_bytes(name.as_bytes()).unwrap(),
            HeaderValue::from_str(value).unwrap(),
        );
    }
    headers
}

#[test]
fn a_quoted_name_is_walked_and_not_found() {
    let mut h = HeaderMap::new();
    h.insert(http::header::HeaderName::from_static("x\"y"), HeaderValue::from_static("v"));
    h.insert("x-z", HeaderValue::from_static("w"));
    assert_eq!(forwardable_headers(&h), vec![pair("x\"y", "v"), pair("x-z", "w")]);
    assert!(!has_header(&h, "x\"y"));
    assert_eq!(first_text(&h, "x\"y"), None);
    assert_eq!(first_text(&h, "X-Z").as_deref(), Some("w"));
}

fn pair(name: &str, value: &str) -> (String, String) {
    (name.to_string(), value.to_string())
}

#[test]
fn forward_response_headers_filters_blacklist() {
    let mut h = HeaderMap::new();
    h.insert("content-type", "text/html; charset=utf-8".parse().unwrap());
    h.append("set-cookie", "a=1; Path=/".parse().unwrap());
    h.append("set-cookie", "b=2; Secure".parse().unwrap());
    h.insert("cache-control", "no-store".parse().unwrap());
    h.insert("etag", "\"abc\"".parse().unwrap());
    h.insert("connection", "keep-alive".parse().unwrap());
    h.insert("content-encoding", "gzip".parse().unwrap());
    h.insert("content-length", "1234".parse().unwrap());
    h.insert("transfer-encoding", "chunked".parse().unwrap());

    let (ct, extras) = forward_response_headers(&h);
    assert_eq!(ct.as_deref(), Some("text/html; charset=utf-8"));
    let lc_names: Vec<String> = extras.iter().map(|(n, _)| n.to_ascii_lowercase()).collect();
    assert!(lc_names.iter().any(|n| n == "cache-control"));
    assert!(lc_names.iter().any(|n| n == "etag"));
    let cookie_count = lc_names.iter().filter(|n| n == &"set-cookie").count();
    assert_eq!(cookie_count, 2);
    assert!(!lc_names.iter().any(|n| n == "connection"));
    assert!(!lc_names.iter().any(|n| n == "content-encoding"));
    assert!(!lc_names.iter().any(|n| n == "content-length"));
    assert!(!lc_names.iter().any(|n| n == "transfer-encoding"));
    assert!(!lc_names.iter().any(|n| n == "content-type"));
}

#[test]
fn forward_response_headers_handles_empty_map() {
    let h = HeaderMap::new();
    let (ct, extras) = forward_response_headers(&h);
    assert!(ct.is_none());
    assert!(extras.is_empty());
}

#[test]
fn headers_for_sidecar_strips_set_cookie_case_insensitive() {
    let extras = vec![
        pair("Access-Control-Allow-Origin", "https://app.example.com"),
        pair("Set-Cookie", "a=1; Path=/"),
        pair("set-cookie", "b=2; Secure"),
        pair("SET-COOKIE", "c=3"),
        pair("Cache-Control", "max-age=300"),
        pair("Vary", "Accept-Encoding"),
        pair("ETag", "\"abc\""),
        pair("X-Custom", "keep-me"),
    ];

    let kept = headers_for_sidecar(&extras);
    let lc_names: Vec<String> = kept.iter().map(|(n, _)| n.to_ascii_lowercase()).collect();
    assert!(
        !lc_names.iter().any(|n| n == "set-cookie"),
        "set-cookie must be stripped (case-insensitive); got {:?}",
        lc_names
    );
    assert!(lc_names.iter().any(|n| n == "access-control-allow-origin"));
    assert!(lc_names.iter().any(|n| n == "cache-control"));
    assert!(lc_names.iter().any(|n| n == "vary"));
    assert!(lc_names.iter().any(|n| n == "etag"));
    assert!(lc_names.iter().any(|n| n == "x-custom"));
    assert_eq!(kept.len(), 5);
    assert_eq!(kept[0].0, "Access-Control-Allow-Origin");
    assert_eq!(kept[1].0, "Cache-Control");
    assert_eq!(kept[2].0, "Vary");
    assert_eq!(kept[3].0, "ETag");
    assert_eq!(kept[4].0, "X-Custom");
}

#[test]
fn request_accept_text_event_stream_bypasses_case_insensitive_with_parameters() {
    let headers = headers(&[("Accept", "application/json, Text/Event-Stream; charset=utf-8")]);
    assert_eq!(request_bypass_reason(&headers), Some(RequestBypassReason::SseAccept));
}

#[test]
fn request_range_header_bypasses_cache() {
    let headers = headers(&[("Range", "bytes=0-1023")]);
    assert_eq!(request_bypass_reason(&headers), Some(RequestBypassReason::Range));
}

#[test]
fn request_cache_control_no_cache_bypasses_case_insensitive_multi_token() {
    let headers = headers(&[("Cache-Control", "max-age=0, No-Cache")]);
    assert_eq!(request_bypass_reason(&headers), Some(RequestBypassReason::CacheControlNoCache));
}

#[test]
fn request_cache_control_no_store_bypasses_case_insensitive_multi_token() {
    let headers = headers(&[("Cache-Control", "public, NO-STORE")]);
    assert_eq!(request_bypass_reason(&headers), Some(RequestBypassReason::CacheControlNoStore));
}

#[test]
fn request_without_generic_signals_does_not_bypass() {
    let headers = headers(&[("Accept", "text/html"), ("Cache-Control", "max-age=300")]);
    assert_eq!(request_bypass_reason(&headers), None);
}

#[test]
fn response_text_event_stream_bypasses_with_parameters() {
    let headers = headers(&[("Content-Type", "Text/Event-Stream; charset=utf-8")]);
    assert_eq!(response_bypass_reason(200, &headers), Some(ResponseBypassReason::SseContentType));
}

#[test]
fn response_206_partial_content_bypasses_cache() {
    let headers = HeaderMap::new();
    assert_eq!(response_bypass_reason(206, &headers), Some(ResponseBypassReason::PartialContent));
}

#[test]
fn ordinary_success_response_does_not_bypass() {
    let headers = headers(&[(http::header::CONTENT_TYPE.as_str(), "text/html")]);
    assert_eq!(response_bypass_reason(200, &headers), None);
}

#[test]
fn reasons_have_words() {
    assert_eq!(RequestBypassReason::SseAccept.as_str(), "sse_accept");
    assert_eq!(RequestBypassReason::Range.as_str(), "range");
    assert_eq!(RequestBypassReason::CacheControlNoCache.as_str(), "cache_control_no_cache");
    assert_eq!(RequestBypassReason::CacheControlNoStore.as_str(), "cache_control_no_store");
    assert_eq!(ResponseBypassReason::SseContentType.as_str(), "sse_content_type");
    assert_eq!(ResponseBypassReason::PartialContent.as_str(), "partial_content");
}

#[test]
fn detects_case_insensitive_upgrade_header() {
    let mut headers = HeaderMap::new();
    headers.insert("Upgrade", "WebSocket".parse().unwrap());
    headers.insert("Connection", "Upgrade".parse().unwrap());
    assert!(is_websocket_upgrade(&headers));
}

#[test]
fn detects_connection_multi_token_upgrade() {
    let mut headers = HeaderMap::new();
    headers.insert("upgrade", "websocket".parse().unwrap());
    headers.insert("connection", "keep-alive, Upgrade".parse().unwrap());
    assert!(is_websocket_upgrade(&headers));
}

#[test]
fn detects_sec_websocket_fallback() {
    let mut headers = HeaderMap::new();
    headers.insert("sec-websocket-key", "dGhlIHNhbXBsZSBub25jZQ==".parse().unwrap());
    headers.insert("sec-websocket-version", "13".parse().unwrap());
    assert!(is_websocket_upgrade(&headers));
}

#[test]
fn ordinary_get_headers_do_not_match() {
    let mut headers = HeaderMap::new();
    headers.insert("accept", "text/html".parse().unwrap());
    headers.insert("connection", "keep-alive".parse().unwrap());
    assert!(!is_websocket_upgrade(&headers));
}

#[test]
fn upgrade_without_connection_token_does_not_match() {
    let mut headers = HeaderMap::new();
    headers.insert("upgrade", "websocket".parse().unwrap());
    headers.insert("connection", "keep-alive".parse().unwrap());
    assert!(!is_websocket_upgrade(&headers));
}

#[test]
fn upstream_gets_no_conditional_header() {
    let mut page = HeaderMap::new();
    page.insert("If-None-Match", "\"abc\"".parse().unwrap());
    page.insert("If-Modified-Since", "Wed, 21 Oct 2015 07:28:00 GMT".parse().unwrap());
    page.insert("If-Match", "\"xyz\"".parse().unwrap());
    page.insert("If-Unmodified-Since", "Wed, 21 Oct 2015 07:28:00 GMT".parse().unwrap());
    page.insert("If-Range", "\"abc\"".parse().unwrap());
    page.insert("Accept", "*/*".parse().unwrap());
    page.append("Accept", "text/html".parse().unwrap());
    let sent = upstream_headers(&page).unwrap();
    for name in ["if-none-match", "if-modified-since", "if-match", "if-unmodified-since", "if-range"] {
        assert!(!has_header(&sent, name));
        assert!(!sent.contains_key(name));
    }
    let accepted: Vec<_> = sent.get_all("accept").iter().collect();
    assert_eq!(accepted, vec!["*/*", "text/html"]);
    assert_eq!(first_text(&sent, "X-Hook-Bypass").as_deref(), Some("1"));
    assert_eq!(sent.len(), 3);
}

#[test]
fn upstream_gets_the_mark_behind_a_forged_one() {
    let sent = upstream_headers(&headers(&[("X-Hook-Bypass", "0")])).unwrap();
    let marks: Vec<_> = sent.get_all("x-hook-bypass").iter().collect();
    assert_eq!(marks, vec!["0", "1"]);
}

#[test]
fn a_value_without_a_text_is_not_forwarded() {
    let mut h = HeaderMap::new();
    h.insert("x-bytes", HeaderValue::from_bytes(b"\xff").unwrap());
    h.insert("x-text", HeaderValue::from_static("plain"));
    assert_eq!(forwardable_headers(&h), vec![pair("x-text", "plain")]);
    assert_eq!(first_text(&h, "x-bytes"), None);
    assert!(has_header(&h, "X-Bytes"));
}

#[test]
fn success_is_two_hundred_and_up_to_three_hundred() {
    assert!(!is_success(199));
    assert!(is_success(200));
    assert!(is_success(299));
    assert!(!is_success(300));
}

#[test]
fn ignored_urls_are_only_fetched() {
    let rules = compile_entries(&[IgnoreEntry::Suffix { suffix: "a.com".to_string(), comment: None }]);
    assert!(matches!(evaluate(&rules, "https://a.com/x"), Evaluation::FetchOnly));
    match evaluate(&rules, "https://b.com/x") {
        Evaluation::LookUp { cache_key } => assert_eq!(cache_key, "b.com/x"),
        _ => panic!("expected a lookup"),
    }
    assert!(matches!(evaluate(&rules, "file:///x"), Evaluation::NoKey(CacheKeyError::MissingHost)));
    assert!(matches!(evaluate(&rules, "x"), Evaluation::NoKey(CacheKeyError::Parse(_))));
}

#[test]
fn a_hit_answers_as_the_miss() {
    let head = headers(&[("content-type", "text/css"), ("vary", "Origin"), ("etag", "\"e\"")]);
    let upstream = Upstream::Response { status: 200, headers: head, body: Some(b"body".to_vec()) };
    let plan = fetch_and_cache_at("https://h/a", upstream, "now".to_string());
    let meta = plan.store.expect("stored");
    assert_eq!(meta.original_url, "https://h/a");
    assert_eq!(meta.content_type.as_deref(), Some("text/css"));
    assert_eq!(meta.etag.as_deref(), Some("\"e\""));
    assert_eq!(meta.last_modified, None);
    assert_eq!(meta.saved_at, "now");
    match (plan.decision, after_lookup(Some((b"body".to_vec(), meta)))) {
        (
            Decision::Respond { body, content_type, extra_headers },
            Some(Decision::Respond { body: b, content_type: c, extra_headers: e }),
        ) => {
            assert_eq!(body, b);
            assert_eq!(content_type, c);
            let mut missed = extra_headers;
            let mut hit = e;
            missed.sort();
            hit.sort();
            assert_eq!(missed, hit);
        }
        _ => panic!("expected two responses"),
    }
    assert!(after_lookup(None).is_none());
}

#[test]
fn no_cookie_is_stored() {
    let head = headers(&[("set-cookie", "a=1"), ("vary", "Origin")]);
    let meta = sidecar_for("https://h/", &head, "now".to_string());
    assert_eq!(meta.forwarded_headers, vec![pair("vary", "Origin")]);
}

#[test]
fn failures_are_bypassed_and_not_stored() {
    for upstream in [
        Upstream::TimedOut,
        Upstream::Failed,
        Upstream::Response { status: 404, headers: HeaderMap::new(), body: Some(Vec::new()) },
        Upstream::Response { status: 200, headers: HeaderMap::new(), body: None },
    ] {
        let plan = fetch_and_cache("https://h/", upstream);
        assert!(matches!(plan.decision, Decision::Bypass));
        assert!(plan.store.is_none());
    }
    assert!(matches!(fetch_only(Upstream::TimedOut), Decision::Bypass));
}

#[test]
fn responses_that_forbid_it_are_not_stored() {
    let head = headers(&[("cache-control", "no-store")]);
    assert!(matches!(response_policy(&head), CachePolicy::Skip { reason: "no-store" }));
    let upstream = Upstream::Response { status: 200, headers: head, body: Some(b"x".to_vec()) };
    let plan = fetch_and_cache("https://h/", upstream);
    assert!(matches!(plan.decision, Decision::Respond { .. }));
    assert!(plan.store.is_none());
}

#[test]
fn the_present_time_is_noted() {
    let upstream = Upstream::Response { status: 200, headers: HeaderMap::new(), body: Some(Vec::new()) };
    let meta: Metadata = fetch_and_cache("https://h/", upstream).store.unwrap();
    let noted = chrono::DateTime::parse_from_rfc3339(&meta.saved_at).unwrap();
    let age = chrono::Utc::now().signed_duration_since(noted);
    assert!(age.num_minutes().abs() < 5);
}

#[test]
fn ignored_urls_are_passed_on() {
    let head = headers(&[("content-type", "text/plain"), ("cache-control", "no-store")]);
    let upstream = Upstream::Response { status: 201, headers: head, body: Some(b"x".to_vec()) };
    match fetch_only(upstream) {
        Decision::Respond { body, content_type, extra_headers } => {
            assert_eq!(body, b"x");
            assert_eq!(content_type.as_deref(), Some("text/plain"));
            assert_eq!(extra_headers, vec![pair("cache-control", "no-store")]);
        }
        Decision::Bypass => panic!("expected a response"),
    }
}
