//! The interceptors of the platforms.
use http::{HeaderMap, HeaderValue};

use pouch::hook::platform::macos::{
    build_response_header_dict, can_init_with_request, deliver, failed_delivery, group_headers,
    install_global as install_on_macos, start_loading, Delivery, Start, ERROR_BAD_URL, ERROR_CANNOT_LOAD,
    ERROR_NOT_CONNECTED,
};
use pouch::hook::platform::windows::{apply_decision, handle_request, Gate};
use pouch::hook::platform::{headers_to_http, install_global, is_local_host, InstallError};
use pouch::hook::policy::Decision;
use pouch::hook::protocol_bypass::RequestBypassReason;
use pouch::http_fetcher::{upstream_headers, BYPASS_HEADER};

fn pair(name: &str, value: &str) -> (String, String) {
    (name.to_string(), value.to_string())
}

fn answer() -> Decision {
    Decision::Respond {
        body: b"hello".to_vec(),
        content_type: Some("text/html".to_string()),
        extra_headers: vec![
            pair("Vary", "Accept"),
            pair("Set-Cookie", "a=1"),
            pair("vary", "Origin"),
            pair("set-cookie", "b=2"),
            pair("X-Broken", "one\r\ntwo"),
        ],
    }
}

#[test]
fn macos_localhost_is_local() {
    assert!(is_local_host("localhost"));
}

#[test]
fn macos_loopback_v4_is_local() {
    assert!(is_local_host("127.0.0.1"));
    assert!(is_local_host("0.0.0.0"));
}

#[test]
fn macos_loopback_v6_is_local() {
    assert!(is_local_host("::1"));
}

#[test]
fn macos_dot_localhost_subdomain_is_local() {
    assert!(is_local_host("foo.localhost"));
    assert!(is_local_host("app.dev.localhost"));
}

#[test]
fn macos_empty_host_is_local() {
    assert!(is_local_host(""));
}

#[test]
fn macos_remote_host_is_not_local() {
    assert!(!is_local_host("example.com"));
    assert!(!is_local_host("www.leelib.com"));
    assert!(!is_local_host("localhost.example.com"));
}

#[test]
fn windows_localhost_is_local() {
    assert!(is_local_host("localhost"));
}

#[test]
fn windows_loopback_v4_is_local() {
    assert!(is_local_host("127.0.0.1"));
    assert!(is_local_host("0.0.0.0"));
}

#[test]
fn windows_loopback_v6_is_local() {
    assert!(is_local_host("::1"));
}

#[test]
fn windows_dot_localhost_subdomain_is_local() {
    assert!(is_local_host("foo.localhost"));
    assert!(is_local_host("app.dev.localhost"));
}

#[test]
fn windows_empty_host_is_local() {
    assert!(is_local_host(""));
}

#[test]
fn windows_remote_host_is_not_local() {
    assert!(!is_local_host("example.com"));
    assert!(!is_local_host("www.leelib.com"));
    assert!(!is_local_host("localhost.example.com"));
}

#[test]
fn the_interceptor_is_installed_once() {
    assert!(install_global().is_ok());
    let mut installed = false;
    match install_on_macos(&mut installed, false) {
        Err(e) => {
            let InstallError::Platform(words) = &e;
            assert!(words.contains("WKBrowsingContextController class not found"));
            assert!(e.message().ends_with(words.as_str()));
        }
        Ok(()) => panic!("installed without its class"),
    }
    assert!(!installed);
    assert!(install_on_macos(&mut installed, true).is_ok());
    assert!(installed);
    assert!(install_on_macos(&mut installed, false).is_ok());
}

#[test]
fn macos_takes_plain_web_requests() {
    assert!(can_init_with_request(Some("HTTPS"), Some("example.com"), Some("get"), false));
    assert!(can_init_with_request(Some("http"), Some("example.com"), None, false));
    assert!(!can_init_with_request(Some("file"), Some("example.com"), None, false));
    assert!(!can_init_with_request(None, Some("example.com"), None, false));
    assert!(!can_init_with_request(Some("http"), None, None, false));
    assert!(!can_init_with_request(Some("http"), Some("LOCALHOST"), None, false));
    assert!(!can_init_with_request(Some("http"), Some("example.com"), Some("POST"), false));
}

#[test]
fn own_requests_are_not_taken() {
    let sent = upstream_headers(&HeaderMap::new()).unwrap();
    let marked = sent.contains_key(BYPASS_HEADER);
    assert!(!can_init_with_request(Some("https"), Some("example.com"), Some("GET"), marked));
}

#[test]
fn windows_gate_tells_requests_apart() {
    let plain = HeaderMap::new();
    assert_eq!(handle_request("GET", &plain, "https://example.com/"), Gate::Evaluate);
    assert_eq!(handle_request("get", &plain, "https://example.com/"), Gate::Evaluate);
    assert_eq!(handle_request("POST", &plain, "https://example.com/"), Gate::NotGet);
    assert_eq!(handle_request("GET", &plain, "http://localhost:1430/"), Gate::Local);
    assert_eq!(handle_request("GET", &plain, "no url"), Gate::Local);
    let mut range = HeaderMap::new();
    range.insert("range", HeaderValue::from_static("bytes=0-1"));
    assert_eq!(
        handle_request("GET", &range, "https://example.com/"),
        Gate::Bypass(RequestBypassReason::Range)
    );
    let mut socket = HeaderMap::new();
    socket.insert("upgrade", HeaderValue::from_static("websocket"));
    socket.insert("connection", HeaderValue::from_static("Upgrade"));
    assert_eq!(handle_request("GET", &socket, "https://example.com/"), Gate::WebSocket);
}

#[test]
fn windows_response_has_one_line_per_header() {
    let response = apply_decision(answer());
    assert_eq!(response.status, 200);
    assert_eq!(response.phrase, "OK");
    assert_eq!(response.body, b"hello");
    assert_eq!(
        response.headers,
        "Content-Type: text/html\r\nVary: Accept\r\nSet-Cookie: a=1\r\nvary: Origin\r\nset-cookie: b=2\r\nContent-Length: 5"
    );
    let error = apply_decision(Decision::Bypass);
    assert_eq!(error.status, 502);
    assert_eq!(error.phrase, "Bad Gateway");
    assert_eq!(error.headers, "X-Hook-Bypass-Reason: policy bypass");
    assert!(error.body.is_empty());
}

#[test]
fn macos_fields_are_grouped_by_name() {
    let extras = vec![
        pair("Vary", "Accept"),
        pair("Set-Cookie", "a=1"),
        pair("vary", "Origin"),
        pair("set-cookie", "b=2"),
    ];
    let groups = group_headers(&extras);
    assert_eq!(groups.len(), 2);
    assert_eq!(groups[0].lower, "set-cookie");
    assert_eq!(groups[1].name, "Vary");
    assert_eq!(groups[1].values, vec!["Accept", "Origin"]);
    assert_eq!(
        build_response_header_dict(Some("text/html"), 5, &extras),
        vec![
            pair("Content-Type", "text/html"),
            pair("Content-Length", "5"),
            pair("Set-Cookie", "a=1\nb=2"),
            pair("Vary", "Accept, Origin"),
        ]
    );
    assert_eq!(build_response_header_dict(None, 0, &Vec::new()), vec![pair("Content-Length", "0")]);
}

#[test]
fn macos_delivers_a_response_or_an_error() {
    match deliver(answer()) {
        Delivery::Response { fields, body } => {
            assert_eq!(body, b"hello");
            assert_eq!(fields[1], pair("Content-Length", "5"));
        }
        Delivery::Error { .. } => panic!("expected a response"),
    }
    match deliver(Decision::Bypass) {
        Delivery::Error { code } => assert_eq!(code, ERROR_NOT_CONNECTED),
        Delivery::Response { .. } => panic!("expected an error"),
    }
}

#[test]
fn header_lists_become_header_maps() {
    let map = headers_to_http(&vec![
        pair("Accept", "text/html"),
        pair("ACCEPT", "text/plain"),
        pair("bad name", "x"),
        pair("x-bad", "line\nbreak"),
        pair("x-text", "ü"),
    ])
    .unwrap();
    let accepted: Vec<_> = map.get_all("accept").iter().collect();
    assert_eq!(accepted, vec!["text/html", "text/plain"]);
    assert_eq!(map.get("x-bad"), None);
    assert_eq!(map.get("x-text").unwrap().as_bytes(), "ü".as_bytes());
    assert_eq!(map.len(), 3);
}

#[test]
fn macos_begins_with_url_and_headers() {
    match start_loading(None, &Vec::new()) {
        Start::Fail { code } => assert_eq!(code, ERROR_BAD_URL),
        Start::Evaluate { .. } => panic!("expected an error"),
    }
    match start_loading(Some("https://h/"), &vec![pair("Accept", "text/html"), pair("bad name", "x")]) {
        Start::Evaluate { url, headers } => {
            assert_eq!(url, "https://h/");
            assert_eq!(headers.len(), 1);
            assert_eq!(headers.get("accept").unwrap(), "text/html");
        }
        Start::Fail { .. } => panic!("expected an evaluation"),
    }
    assert!(matches!(failed_delivery(), Delivery::Error { code: ERROR_CANNOT_LOAD }));
}
