//! The local proxy.
use http::{HeaderMap, HeaderValue};

use pouch::cache_store::{CacheKeyError, Metadata};
use pouch::hook::ignore_filter::{compile_entries, IgnoreEntry};
use pouch::hook::protocol_bypass::{RequestBypassReason, ResponseBypassReason};
use pouch::mitm::ca::{
    ca_directory, ca_key_path, ca_pem_path, ca_source, issuer_from_pem, issuer_with_key, CaSource,
};
use pouch::mitm::handler::{
    after_collect, after_collect_at, after_decode, build_response_from_cached, full_url, is_slow_ms,
    log_hits_enabled, next_request_id, short_url, slow_threshold_ms, upstream_wait_ms, DecodeStep,
    ForwardReason, LookupStep, PouchHandler, RequestMeta, RequestStep, RequestUri, ResponseStep,
};
use pouch::mitm::learned::{
    extract_host, is_learned_passthrough, learn_passthrough, load_learned_passthrough, normalise_host,
    store_path, strip_quotes, LearnedHosts, LearnerLayer,
};
use pouch::mitm::trust::{
    begin_trust, check_trust, install_outcome, install_to_login_keychain, show_install_prompt, show_quit_explanation, step, verify_args,
    TrustEvent, TrustFlow, TrustState, UserChoice,
};
use pouch::mitm::{
    ensure_ca_trusted, proxy_port, proxy_url, show_trust_quit_alert, start, MitmError, ProxyState,
};

fn complete(url: &str) -> RequestUri {
    RequestUri { has_scheme: true, has_authority: true, text: url.to_string(), path_and_query: None }
}

fn one(name: &'static str, value: &'static str) -> HeaderMap {
    let mut map = HeaderMap::new();
    map.insert(name, HeaderValue::from_static(value));
    map
}

fn meta() -> RequestMeta {
    RequestMeta { id: 7, url: "https://h/a".to_string(), cache_key: "h/a".to_string() }
}

#[test]
fn normalise_host_strips_port_and_lowercases() {
    assert_eq!(normalise_host("Example.COM:443").as_deref(), Some("example.com"));
    assert_eq!(normalise_host("host"), Some("host".into()));
    assert_eq!(normalise_host(""), None);
    assert_eq!(normalise_host("[::1]:8080").as_deref(), Some("[::1]"));
}

#[test]
fn extract_host_handles_url_and_authority() {
    assert_eq!(
        extract_host("https://gs152.tzcq.longget.com:11013/").as_deref(),
        Some("gs152.tzcq.longget.com")
    );
    assert_eq!(extract_host("setcookie.net:443").as_deref(), Some("setcookie.net"));
    assert_eq!(extract_host(""), None);
}

#[test]
fn a_normal_host_is_normal() {
    assert_eq!(normalise_host(" Example.COM:443 ").and_then(|h| normalise_host(&h)).as_deref(), Some("example.com"));
    assert_eq!(normalise_host("[::1").as_deref(), None);
    assert_eq!(normalise_host(":80").as_deref(), None);
}

#[test]
fn learned_hosts_pass_by() {
    let mut learned = LearnedHosts::new();
    assert!(!is_learned_passthrough(&learned, "pinned.com:443"));
    assert!(learn_passthrough(&mut learned, "Pinned.com"));
    assert!(!learn_passthrough(&mut learned, "pinned.com:8443"));
    assert!(!learn_passthrough(&mut learned, ""));
    assert_eq!(learned.len(), 1);
    assert!(learned.contains("pinned.com"));
    assert!(is_learned_passthrough(&learned, "PINNED.com:443"));
    let handler = PouchHandler::new();
    assert!(!handler.should_intercept(&learned, Some("pinned.com:443")));
    assert!(handler.should_intercept(&learned, Some("other.com:443")));
    assert!(handler.should_intercept(&learned, None));
}

#[test]
fn learned_hosts_are_loaded() {
    let rows = vec!["a.com".to_string(), "b.com".to_string(), "a.com".to_string()];
    let (learned, _) = load_learned_passthrough(&rows);
    assert_eq!(learned.len(), 2);
    assert!(is_learned_passthrough(&learned, "A.com:443"));
    assert_eq!(store_path(Some("/s")).as_deref(), Some("/s/cache/learned_passthrough.db"));
    assert_eq!(store_path(None), None);
}

#[test]
fn errors_of_the_proxy_are_learned_from() {
    let mut learned = LearnedHosts::new();
    let layer = LearnerLayer;
    let uris = vec![None, Some("".to_string()), Some("https://Bad.com:1/".to_string()), Some("c.com".to_string())];
    assert_eq!(layer.on_event(&mut learned, "hook", true, &uris), None);
    assert_eq!(layer.on_event(&mut learned, "hudsucker::proxy", false, &uris), None);
    assert_eq!(layer.on_event(&mut learned, "hyper", true, &uris), None);
    assert_eq!(learned.len(), 0);
    assert_eq!(layer.on_event(&mut learned, "hudsucker::proxy", true, &uris).as_deref(), Some("bad.com"));
    assert_eq!(layer.on_event(&mut learned, "hudsucker::proxy", true, &uris), None);
    assert!(learned.contains("bad.com"));
    assert_eq!(strip_quotes("\"a\""), "a");
    assert_eq!(strip_quotes("\"a"), "\"a");
    assert_eq!(strip_quotes("\""), "\"");
}

#[test]
fn certificate_files() {
    assert_eq!(ca_directory(Some("/s")).unwrap(), "/s/ca");
    match ca_directory(None) {
        Err(MitmError::Ca(words)) => assert_eq!(words, "macos_app_support_dir unavailable ($HOME unset?)"),
        _ => panic!("expected an error"),
    }
    assert_eq!(ca_pem_path(Some("/s")).as_deref(), Some("/s/ca/pouch-ca.pem"));
    assert_eq!(ca_key_path(Some("/s")).as_deref(), Some("/s/ca/pouch-ca.key"));
    assert_eq!(ca_pem_path(None), None);
    assert_eq!(ca_key_path(None), None);
    assert_eq!(ca_source(true, true), CaSource::Load);
    assert_eq!(ca_source(true, false), CaSource::Generate);
    assert_eq!(ca_source(false, true), CaSource::Generate);
}

fn root_certificate() -> (String, String) {
    let mut params = rcgen::CertificateParams::new(Vec::<String>::new()).expect("parameters");
    params.is_ca = rcgen::IsCa::Ca(rcgen::BasicConstraints::Unconstrained);
    params.key_usages = vec![rcgen::KeyUsagePurpose::KeyCertSign, rcgen::KeyUsagePurpose::CrlSign];
    let key = rcgen::KeyPair::generate().expect("a key");
    let cert = params.self_signed(&key).expect("a certificate");
    (cert.pem(), key.serialize_pem())
}

#[test]
fn the_issuer_has_the_certificate_and_the_key() {
    let (cert, key) = root_certificate();
    let issuer = issuer_from_pem(&cert, &key).expect("both can be read");
    assert_eq!(issuer.key().serialize_pem(), key);
    assert_eq!(
        issuer.key_usages().to_vec(),
        vec![rcgen::KeyUsagePurpose::KeyCertSign, rcgen::KeyUsagePurpose::CrlSign]
    );
    let (_, other) = root_certificate();
    let issuer = issuer_from_pem(&cert, &other).expect("the key is not held against the certificate");
    assert_eq!(issuer.key().serialize_pem(), other);
}

#[test]
fn what_is_no_certificate_has_no_issuer() {
    let (cert, key) = root_certificate();
    let failed = |cert: &str, key: &str| match issuer_from_pem(cert, key) {
        Ok(_) => panic!("expected an error"),
        Err(e) => e.message(),
    };
    assert_eq!(failed("x", &key), "CA error: parse CA cert PEM: Could not parse certificate");
    assert_eq!(failed(&key, &key), "CA error: parse CA cert PEM: Could not parse certificate");
    assert_eq!(failed(&cert, &cert), "CA error: parse CA key PEM: Could not parse key pair");
    assert!(failed(&cert, "x").starts_with("CA error: parse CA key PEM: PEM error: "));
    assert!(failed("x", "x").starts_with("CA error: parse CA key PEM: "));
    match issuer_with_key(&cert, Err("no key".to_string())) {
        Ok(_) => panic!("expected an error"),
        Err(e) => assert_eq!(e.message(), "CA error: parse CA key PEM: no key"),
    }
}

#[test]
fn trust_is_checked_before_and_after() {
    let flow = begin_trust(true);
    let flow = ensure_ca_trusted(flow, TrustEvent::Checked(check_trust(Some(false))));
    assert!(matches!(flow, TrustFlow::Ask));
    let flow = step(flow, TrustEvent::Chosen(show_install_prompt(Some(1000))));
    assert!(matches!(flow, TrustFlow::Install));
    let flow = step(flow, TrustEvent::Installed(Ok(())));
    assert!(matches!(flow, TrustFlow::Recheck));
    let flow = step(flow, TrustEvent::Checked(TrustState::Trusted));
    assert!(matches!(flow, TrustFlow::Done(Ok(()))));
    let flow = step(flow, TrustEvent::Checked(TrustState::NotTrusted));
    assert!(matches!(flow, TrustFlow::Done(Ok(()))));
}

fn words_of(flow: TrustFlow) -> String {
    match flow {
        TrustFlow::Done(Err(e)) => e.message(),
        _ => panic!("expected an error"),
    }
}

#[test]
fn trust_fails_with_its_reason() {
    assert_eq!(words_of(begin_trust(false)), "CA trust error: ca_pem_path unavailable ($HOME unset?)");
    assert_eq!(
        words_of(step(TrustFlow::Ask, TrustEvent::Chosen(show_install_prompt(None)))),
        "CA trust error: user cancelled CA install"
    );
    assert_eq!(
        words_of(step(TrustFlow::Install, TrustEvent::Installed(Err("x".to_string())))),
        "CA trust error: install failed: x"
    );
    assert_eq!(
        words_of(step(TrustFlow::Recheck, TrustEvent::Checked(check_trust(None)))),
        "CA trust error: install reported success but verify-cert still fails"
    );
    assert!(matches!(
        step(TrustFlow::Check, TrustEvent::Checked(TrustState::Trusted)),
        TrustFlow::Done(Ok(()))
    ));
    assert!(matches!(step(TrustFlow::Check, TrustEvent::Chosen(UserChoice::Install)), TrustFlow::Check));
}

#[test]
fn trust_words_and_arguments() {
    assert_eq!(verify_args("/p.pem"), vec!["verify-cert", "-c", "/p.pem", "-p", "ssl"]);
    assert_eq!(
        install_to_login_keychain("/h", "/p.pem"),
        vec!["add-trusted-cert", "-k", "/h/Library/Keychains/login.keychain-db", "/p.pem"]
    );
    assert_eq!(install_outcome(Ok((true, "0", ""))), Ok(()));
    assert_eq!(install_outcome(Ok((false, "exit status: 1", " no \n"))), Err("security exit exit status: 1: no".to_string()));
    assert_eq!(install_outcome(Err("gone")), Err("spawn security: gone".to_string()));
    assert!(show_quit_explanation("why").ends_with("\n\nDetail: why"));
    assert_eq!(show_trust_quit_alert("why"), show_quit_explanation("why"));
    assert_eq!(show_install_prompt(Some(1001)), UserChoice::Cancel);
    assert_eq!(MitmError::Ca("a".to_string()).message(), "CA error: a");
    assert_eq!(MitmError::Bind("a".to_string()).message(), "proxy bind failed: a");
    assert_eq!(MitmError::Build("a".to_string()).message(), "proxy build failed: a");
}

#[test]
fn the_proxy_starts_once() {
    let mut state = ProxyState::new();
    assert_eq!(proxy_port(&state), None);
    assert_eq!(proxy_url(&state), None);
    assert!(matches!(
        start(&mut state, Err(MitmError::Bind("x".to_string()))),
        Err(MitmError::Bind(_))
    ));
    assert_eq!(proxy_port(&state), None);
    assert_eq!(start(&mut state, Ok(4711)).unwrap(), 4711);
    assert_eq!(start(&mut state, Ok(4712)).unwrap(), 4711);
    assert_eq!(proxy_port(&state), Some(4711));
    assert_eq!(proxy_url(&state).as_deref(), Some("http://127.0.0.1:4711"));
}

#[test]
fn urls_are_completed_from_the_host_header() {
    assert_eq!(full_url(&complete("http://h/a?b"), &HeaderMap::new()), "http://h/a?b");
    let partial = RequestUri {
        has_scheme: false,
        has_authority: false,
        text: "/a".to_string(),
        path_and_query: Some("/a?b".to_string()),
    };
    assert_eq!(full_url(&partial, &one("host", "h.com")), "https://h.com/a?b");
    let bare = RequestUri { has_scheme: true, has_authority: false, text: String::new(), path_and_query: None };
    assert_eq!(full_url(&bare, &HeaderMap::new()), "https:///");
}

#[test]
fn requests_that_pass_by() {
    let mut handler = PouchHandler::new();
    let rules = compile_entries(&[IgnoreEntry::Suffix { suffix: "a.com".to_string(), comment: None }]);
    let plain = HeaderMap::new();
    let uri = complete("https://b.com/x");
    let post = handler.handle_request(&rules, 1, "POST", &uri, &plain);
    assert!(matches!(post, RequestStep::Forward(ForwardReason::NotGet)));
    let lower = handler.handle_request(&rules, 1, "get", &uri, &plain);
    assert!(matches!(lower, RequestStep::Forward(ForwardReason::NotGet)));
    let mut upgrade = one("upgrade", "websocket");
    upgrade.insert("connection", HeaderValue::from_static("Upgrade"));
    let socket = handler.handle_request(&rules, 1, "GET", &uri, &upgrade);
    assert!(matches!(socket, RequestStep::Forward(ForwardReason::WebSocket)));
    let range = handler.handle_request(&rules, 1, "GET", &uri, &one("range", "bytes=0-"));
    assert!(matches!(range, RequestStep::Forward(ForwardReason::Bypass(RequestBypassReason::Range))));
    let ignored = handler.handle_request(&rules, 1, "GET", &complete("https://a.com/"), &plain);
    assert!(matches!(ignored, RequestStep::Forward(ForwardReason::Ignored)));
    let keyless = handler.handle_request(&rules, 1, "GET", &complete("file:///x"), &plain);
    assert!(matches!(keyless, RequestStep::Forward(ForwardReason::NoKey(CacheKeyError::MissingHost))));
    assert!(handler.request_meta.is_none());
    assert!(matches!(handler.handle_response(200, &plain), ResponseStep::PassOn));
}

#[test]
fn a_miss_is_collected_and_stored() {
    let mut handler = PouchHandler::new();
    let plain = HeaderMap::new();
    let found = match handler.handle_request(&Vec::new(), 7, "GET", &complete("https://h/a"), &plain) {
        RequestStep::LookUp(meta) => meta,
        RequestStep::Forward(_) => panic!("expected a lookup"),
    };
    assert_eq!(found.cache_key, "h/a");
    assert_eq!(found.id, 7);
    assert!(matches!(handler.after_lookup(found, None), LookupStep::Miss));
    let head = one("content-type", "text/css");
    let kept = match handler.handle_response(200, &head) {
        ResponseStep::Decode(meta) => meta,
        _ => panic!("expected to decode"),
    };
    assert!(handler.request_meta.is_none());
    assert_eq!(after_decode(true, 200), DecodeStep::Collect);
    let plan = after_collect_at(&kept, &head, Some(b"x".to_vec()), "now".to_string());
    assert_eq!(plan.body, b"x");
    let stored = plan.store.unwrap();
    assert_eq!(stored.original_url, "https://h/a");
    assert_eq!(stored.content_type.as_deref(), Some("text/css"));
    assert_eq!(stored.saved_at, "now");
    assert!(after_collect(&kept, &head, None).store.is_none());
    assert!(after_collect(&kept, &one("cache-control", "private"), Some(Vec::new())).store.is_none());
}

#[test]
fn responses_that_pass_by() {
    let plain = HeaderMap::new();
    let mut handler = PouchHandler::new();
    handler.after_lookup(meta(), None);
    assert!(matches!(
        handler.handle_response(206, &plain),
        ResponseStep::Bypass(ResponseBypassReason::PartialContent)
    ));
    handler.after_lookup(meta(), None);
    assert!(matches!(
        handler.handle_response(200, &one("content-type", "text/event-stream")),
        ResponseStep::Bypass(ResponseBypassReason::SseContentType)
    ));
    assert_eq!(after_decode(true, 404), DecodeStep::PassOn);
    assert_eq!(after_decode(false, 200), DecodeStep::Empty);
}

#[test]
fn a_hit_replays_the_stored_headers() {
    let stored = Metadata {
        content_type: Some("text/css".to_string()),
        forwarded_headers: vec![
            ("Vary".to_string(), "Origin".to_string()),
            ("content-length".to_string(), "999".to_string()),
            ("Content-Type".to_string(), "x/y".to_string()),
            ("bad name".to_string(), "x".to_string()),
            ("vary".to_string(), "Accept".to_string()),
        ],
        ..Metadata::default()
    };
    let map = build_response_from_cached(3, &stored).unwrap();
    assert_eq!(map.len(), 4);
    assert_eq!(map.get("content-length").unwrap(), "3");
    assert_eq!(map.get("content-type").unwrap(), "text/css");
    let vary: Vec<_> = map.get_all("vary").iter().collect();
    assert_eq!(vary, vec!["Origin", "Accept"]);
    let mut handler = PouchHandler::new();
    match handler.after_lookup(meta(), Some((b"abc".to_vec(), stored))) {
        LookupStep::Hit { headers, body } => {
            assert_eq!(body, b"abc");
            assert_eq!(headers, map);
        }
        _ => panic!("expected a hit"),
    }
    assert!(handler.request_meta.is_none());
}

#[test]
fn requests_are_numbered() {
    let mut counter = 1;
    assert_eq!(next_request_id(&mut counter), 1);
    assert_eq!(next_request_id(&mut counter), 2);
    let mut last = u64::MAX;
    assert_eq!(next_request_id(&mut last), u64::MAX);
    assert_eq!(last, 0);
}

#[test]
fn what_the_log_says() {
    let long = "a".repeat(200);
    assert_eq!(short_url(&long).len(), 120);
    assert_eq!(short_url("https://h/"), "https://h/");
    let wide = "ü".repeat(121);
    assert_eq!(short_url(&wide), "ü".repeat(120));
    assert_eq!(slow_threshold_ms(None), 1000);
    assert_eq!(slow_threshold_ms(Some(" 250 ")), 250);
    assert_eq!(slow_threshold_ms(Some("+7")), 7);
    assert_eq!(slow_threshold_ms(Some("soon")), 1000);
    assert_eq!(slow_threshold_ms(Some("340282366920938463463374607431768211455")), u128::MAX);
    assert_eq!(slow_threshold_ms(Some("340282366920938463463374607431768211456")), 1000);
    assert!(is_slow_ms(1001, 1000));
    assert!(!is_slow_ms(1000, 1000));
    assert_eq!(upstream_wait_ms(100, 30, 20), 50);
    assert_eq!(upstream_wait_ms(10, 30, 20), 0);
    assert!(log_hits_enabled(Some(" YES ")));
    assert!(log_hits_enabled(Some("1")));
    assert!(log_hits_enabled(Some("on")));
    assert!(log_hits_enabled(Some("True")));
    assert!(!log_hits_enabled(Some("0")));
    assert!(!log_hits_enabled(None));
}
