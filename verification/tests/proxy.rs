use ignite_server::base64_text::{decode, encode};
use ignite_server::json::{jstr, to_value, Json};
use ignite_server::net::{parse_ip_text, IpAddress};
use ignite_server::proxy_routes::{
    addr_ok, begin, begin_with, header_map_to_json, header_text, is_private_ip, plan_request, step,
    step_with, BodyStream, Outgoing, ProxyAction, ProxyConfig, ProxyEvent, ProxyMode, ProxyReq,
    ProxyState, Target, MAX_RESPONSE_BYTES,
};

fn ip(s: &str) -> IpAddress {
    parse_ip_text(s).unwrap()
}

fn call(url: Option<&str>) -> ProxyReq {
    ProxyReq {
        url: url.map(|u| u.to_string()),
        method: None,
        headers: None,
        body: None,
        binary: None,
    }
}

fn failure_of(a: &ProxyAction) -> (u16, String) {
    match a {
        ProxyAction::Fail(f) => (f.status, f.message.clone()),
        _ => panic!("expected a failure"),
    }
}

fn header(name: &str, value: &str) -> (String, Vec<u8>) {
    (name.to_string(), value.as_bytes().to_vec())
}

fn sending(s: ProxyState) -> Outgoing {
    match s {
        ProxyState::Sending(o) => o,
        _ => panic!("expected a request on its way"),
    }
}

fn resolving(s: ProxyState) -> Outgoing {
    match s {
        ProxyState::Resolving(o) => o,
        _ => panic!("expected a request before its address check"),
    }
}

fn loopback_config() -> ProxyConfig {
    let mut cfg = ProxyConfig::default();
    cfg.set_allow_private("127.0.0.1");
    cfg
}

#[test]
fn private_ip_classification_matches_ignis() {
    for s in ["10.0.0.1", "127.0.0.1", "192.168.1.1", "169.254.1.1", "172.16.0.1", "::1"] {
        assert!(is_private_ip(ip(s)), "{s} should be private");
    }
    for s in ["8.8.8.8", "1.1.1.1", "203.0.113.5"] {
        assert!(!is_private_ip(ip(s)), "{s} should be public");
    }
}

#[test]
fn private_ranges_end_where_they_should() {
    for s in [
        "0.1.2.3", "172.31.255.255", "100.64.0.0", "100.127.255.255", "::", "::ffff:10.1.2.3",
        "fe80::1", "febf::1", "fc00::1", "fdff:1::2",
    ] {
        assert!(is_private_ip(ip(s)), "{s} should be private");
    }
    for s in [
        "172.15.0.1", "172.32.0.1", "100.63.255.255", "100.128.0.0", "169.253.1.1", "::2",
        "::ffff:8.8.8.8", "fec0::1", "fe7f::1", "fe00::1", "2001:db8::1",
    ] {
        assert!(!is_private_ip(ip(s)), "{s} should be public");
    }
}

#[test]
fn allow_private_exact_and_cidr() {
    let mut cfg = ProxyConfig::default();
    cfg.set_allow_private("127.0.0.1, 10.0.0.0/8");
    assert!(cfg.addr_allowed(ip("127.0.0.1")));
    assert!(cfg.addr_allowed(ip("10.5.6.7")));
    assert!(!cfg.addr_allowed(ip("192.168.1.1")));
    assert!(cfg.addr_allowed(ip("8.8.8.8")));
}

#[test]
fn networks_cover_their_prefix() {
    let mut cfg = ProxyConfig::default();
    cfg.set_allow_private("192.168.77.9/20, 10.0.0.0/33, 10.0.0.0/x, nonsense, ::1, 127.0.0.1,127.0.0.1");
    assert_eq!(cfg.allow_private_cidr_v4, vec![(0xc0a8_4000, 0xffff_f000)]);
    assert_eq!(cfg.allow_private_exact.len(), 2);
    assert!(cfg.allowlisted_addr(ip("192.168.64.0")));
    assert!(cfg.allowlisted_addr(ip("192.168.79.255")));
    assert!(!cfg.allowlisted_addr(ip("192.168.80.0")));
    assert!(cfg.allowlisted_addr(ip("::1")));
    assert!(!cfg.addr_allowed(ip("10.0.0.1")));
    let mut all = ProxyConfig::default();
    all.set_allow_private("1.2.3.4/0");
    assert_eq!(all.allow_private_cidr_v4, vec![(0, 0)]);
    assert!(all.addr_allowed(ip("10.0.0.1")));
}

#[test]
fn a_clone_of_a_configuration_says_the_same() {
    let cfg = ProxyConfig::from_env(Some("allowlist"), Some("10.0.0.0/8, ::1"), Some("a.example"));
    let copy = cfg.clone();
    assert_eq!(copy.mode, ProxyMode::Allowlist);
    assert_eq!(copy.allowlist_hosts, cfg.allowlist_hosts);
    assert_eq!(copy.allow_private_cidr_v4, cfg.allow_private_cidr_v4);
    assert!(copy.addr_allowed(ip("::1")));
    assert!(!copy.addr_allowed(ip("127.0.0.1")));
}

#[test]
fn configuration_from_the_environment() {
    let cfg = ProxyConfig::from_env(Some("allowlist"), Some("10.0.0.0/8"), Some(" a.example , ,b.example"));
    assert_eq!(cfg.mode, ProxyMode::Allowlist);
    assert_eq!(cfg.allowlist_hosts, vec!["a.example".to_string(), "b.example".to_string()]);
    assert_eq!(cfg.allow_private_cidr_v4, vec![(0x0a00_0000, 0xff00_0000)]);
    assert_eq!(ProxyConfig::from_env(Some("disabled"), None, None).mode, ProxyMode::Disabled);
    assert_eq!(ProxyConfig::from_env(Some("other"), None, None).mode, ProxyMode::Any);
    assert_eq!(ProxyConfig::from_env(None, None, None).mode, ProxyMode::Any);
}

#[test]
fn proxies_a_get_and_returns_base64_envelope() {
    let cfg = loopback_config();
    let (s, a) = begin(&cfg, &call(Some("http://127.0.0.1:8123/hello")));
    match &a {
        ProxyAction::Lookup { host, port } => {
            assert_eq!(host, "127.0.0.1");
            assert_eq!(*port, 8123);
        }
        _ => panic!("expected a lookup"),
    }
    let (s, a) = step(&cfg, s, ProxyEvent::Addresses(vec![ip("127.0.0.1")]));
    assert!(matches!(a, ProxyAction::Send));
    let out = sending(s);
    assert_eq!(out.method, "GET");
    assert_eq!(out.target.href, "http://127.0.0.1:8123/hello");
    let (s, a) = step(
        &cfg,
        ProxyState::Sending(out),
        ProxyEvent::Response { status: 200, headers: vec![header("x-test", "yes")] },
    );
    assert!(matches!(a, ProxyAction::Read));
    let (s, _) = step(&cfg, s, ProxyEvent::Chunk(b"hello".to_vec()));
    let (s, _) = step(&cfg, s, ProxyEvent::Chunk(b"-upstream".to_vec()));
    let (_, a) = step(&cfg, s, ProxyEvent::BodyEnd);
    let v = match a {
        ProxyAction::Reply(j) => to_value(&j),
        _ => panic!("expected a reply"),
    };
    assert_eq!(v["status"], 200);
    let b64 = v["body"].as_str().unwrap();
    assert_eq!(decode(b64).unwrap(), b"hello-upstream");
    assert_eq!(v["headers"]["x-test"], "yes");
}

#[test]
fn ssrf_guard_rejects_private_without_allowlist() {
    let cfg = ProxyConfig::default();
    let (s, _) = begin(&cfg, &call(Some("http://127.0.0.1:8123/hello")));
    let (s, a) = step(&cfg, s, ProxyEvent::Addresses(vec![ip("8.8.8.8"), ip("127.0.0.1")]));
    assert_eq!(failure_of(&a), (403, "address not allowed".to_string()));
    assert!(matches!(s, ProxyState::Done));
}

#[test]
fn disabled_mode_rejects() {
    let cfg = ProxyConfig { mode: ProxyMode::Disabled, ..Default::default() };
    let (_, a) = begin(&cfg, &call(Some("http://8.8.8.8/")));
    assert_eq!(failure_of(&a), (403, "proxy disabled".to_string()));
}

#[test]
fn missing_url_is_400() {
    let (_, a) = begin(&ProxyConfig::default(), &call(None));
    assert_eq!(failure_of(&a), (400, "url required".to_string()));
    let (_, a) = begin(&ProxyConfig::default(), &call(Some("")));
    assert_eq!(failure_of(&a), (400, "url required".to_string()));
}

#[test]
fn urls_that_are_refused() {
    let any = ProxyConfig::default();
    let (_, a) = begin(&any, &call(Some("not a url")));
    assert_eq!(failure_of(&a), (400, "invalid url".to_string()));
    let (_, a) = begin(&any, &call(Some("ftp://example.org/")));
    assert_eq!(failure_of(&a), (400, "unsupported url scheme".to_string()));
    let listed = ProxyConfig::from_env(Some("allowlist"), None, Some("good.example"));
    let (_, a) = begin(&listed, &call(Some("https://bad.example/")));
    assert_eq!(failure_of(&a), (403, "host not allowlisted".to_string()));
    let (_, a) = begin(&listed, &call(Some("https://good.example/x")));
    match a {
        ProxyAction::Lookup { host, port } => {
            assert_eq!(host, "good.example");
            assert_eq!(port, 443);
        }
        _ => panic!("expected a lookup"),
    }
}

#[test]
fn only_web_urls_are_asked_for_their_origin() {
    let any = ProxyConfig::default();
    let deep = format!("{}http://example.org/", "blob:".repeat(200_000));
    let (_, a) = begin(&any, &call(Some(&deep)));
    assert_eq!(failure_of(&a), (400, "unsupported url scheme".to_string()));
    let off = ProxyConfig { mode: ProxyMode::Disabled, ..Default::default() };
    let (_, a) = begin(&off, &call(Some(&deep)));
    assert_eq!(failure_of(&a), (403, "proxy disabled".to_string()));
    for status in [200, 302] {
        let s = sent(&any, "http://example.org/", "GET");
        let (s, _) = step(&any, s, redirect(status, &deep));
        assert!(matches!(s, ProxyState::Reading { .. }));
    }
}

#[test]
fn origins_leave_out_the_default_port() {
    for (url, origin) in [
        ("http://Example.org:80/a?b#c", "http://example.org"),
        ("https://example.org:443/", "https://example.org"),
        ("https://example.org:80/", "https://example.org:80"),
        ("http://user@[::1]:8080/", "http://[::1]:8080"),
    ] {
        let (s, _) = begin(&ProxyConfig::default(), &call(Some(url)));
        let o = resolving(s);
        assert_eq!(o.origin, origin);
        assert_eq!(o.target.origin, origin);
    }
}

#[test]
fn a_url_without_a_host_is_refused() {
    let bare = Target {
        href: "http:".to_string(),
        scheme: "http".to_string(),
        host: None,
        port: None,
        origin: "null".to_string(),
    };
    let (_, a) = begin_with(&ProxyConfig::default(), &call(Some("x")), Some(bare), "GET");
    assert_eq!(failure_of(&a), (400, "invalid url host".to_string()));
}

#[test]
fn methods_headers_and_bodies_are_passed_on() {
    let cfg = ProxyConfig::default();
    let mut req = call(Some("http://example.org/"));
    req.method = Some("post".to_string());
    req.headers = Some(vec![
        ("Accept".to_string(), jstr("text/html")),
        ("Content-Length".to_string(), jstr("9")),
        ("HOST".to_string(), jstr("evil")),
        ("X-Number".to_string(), Json::Uint(1)),
        ("accept".to_string(), jstr("text/plain")),
        ("bad name".to_string(), jstr("x")),
        ("x-bad-value".to_string(), jstr("a\nb")),
        ("x-umlaut".to_string(), jstr("\u{e4}\t")),
    ]);
    req.body = Some("gr\u{fc}n".to_string());
    let (s, _) = begin(&cfg, &req);
    let o = resolving(s);
    assert_eq!(o.method, "POST");
    assert_eq!(o.headers.len(), 2);
    assert_eq!(o.headers.get("accept").unwrap(), "text/plain");
    assert_eq!(o.headers.get("x-umlaut").unwrap().as_bytes(), "\u{e4}\t".as_bytes());
    assert_eq!(o.body.unwrap(), "gr\u{fc}n".as_bytes());

    req.method = Some("not a method".to_string());
    req.binary = Some(true);
    req.body = Some("aGVsbG8=".to_string());
    let (s, _) = begin(&cfg, &req);
    let o = resolving(s);
    assert_eq!(o.method, "GET");
    assert_eq!(o.body.unwrap(), b"hello");

    req.body = Some("aGVsbG8".to_string());
    let (_, a) = begin(&cfg, &req);
    assert_eq!(failure_of(&a), (400, "invalid base64 body".to_string()));
}

#[test]
fn headers_fit_their_map() {
    let mut req = call(Some("http://example.org/"));
    req.headers = Some((0..6553).map(|i| (format!("x-{i}"), jstr("v"))).collect());
    let (s, _) = begin(&ProxyConfig::default(), &req);
    assert_eq!(resolving(s).headers.len(), 6553);
    req.headers = Some((0..25000).map(|i| (format!("x-{i}"), jstr("v"))).collect());
    let (_, a) = begin(&ProxyConfig::default(), &req);
    assert_eq!(failure_of(&a), (400, "too many headers".to_string()));
    req.headers = Some((0..25000).map(|i| (format!("x-{}", i % 3), jstr("v"))).collect());
    let (s, _) = begin(&ProxyConfig::default(), &req);
    assert_eq!(resolving(s).headers.len(), 3);
}

#[test]
fn upper_case_goes_by_unicode() {
    let mut req = call(Some("http://example.org/"));
    req.method = Some("patch".to_string());
    let (s, _) = begin(&ProxyConfig::default(), &req);
    assert_eq!(resolving(s).method, "PATCH");
    req.method = Some("stra\u{df}e".to_string());
    let (s, _) = begin(&ProxyConfig::default(), &req);
    assert_eq!(resolving(s).method, "STRASSE");
}

#[test]
fn planning_takes_the_parsed_url() {
    let r = plan_request(&ProxyConfig::default(), &call(Some("x")), None, "GET");
    assert_eq!(r.err().unwrap().message, "invalid url");
}

#[test]
fn lookups_and_requests_can_fail() {
    let cfg = ProxyConfig::default();
    let (s, _) = begin(&cfg, &call(Some("http://example.org/")));
    let (_, a) = step(&cfg, s, ProxyEvent::LookupFailed);
    assert_eq!(failure_of(&a), (502, "dns resolution failed".to_string()));
    let (s, _) = begin(&cfg, &call(Some("http://example.org/")));
    let (_, a) = step(&cfg, s, ProxyEvent::Addresses(vec![]));
    assert_eq!(failure_of(&a), (502, "no addresses resolved".to_string()));
    let (s, _) = begin(&cfg, &call(Some("http://example.org/")));
    let (s, _) = step(&cfg, s, ProxyEvent::Addresses(vec![ip("8.8.8.8")]));
    let (_, a) = step(&cfg, s, ProxyEvent::SendFailed);
    assert_eq!(failure_of(&a), (502, "upstream request failed".to_string()));
    assert!(addr_ok(&cfg, &vec![ip("8.8.8.8")]).is_ok());
}

fn sent(cfg: &ProxyConfig, url: &str, method: &str) -> ProxyState {
    let mut req = call(Some(url));
    req.method = Some(method.to_string());
    req.headers = Some(vec![
        ("authorization".to_string(), jstr("secret")),
        ("cookie".to_string(), jstr("c=1")),
        ("x-kept".to_string(), jstr("k")),
    ]);
    let (s, _) = begin(cfg, &req);
    step(cfg, s, ProxyEvent::Addresses(vec![ip("8.8.8.8")])).0
}

fn redirect(status: u16, location: &str) -> ProxyEvent {
    ProxyEvent::Response {
        status,
        headers: vec![header("x-first", "1"), header("location", location), header("location", "/second")],
    }
}

#[test]
fn redirects_keep_or_drop_credentials() {
    let cfg = ProxyConfig::default();
    let s = sent(&cfg, "http://example.org/a/b", "POST");
    let (s, a) = step(&cfg, s, redirect(307, "../c?d=1"));
    assert!(matches!(a, ProxyAction::Lookup { .. }));
    let o = resolving(s);
    assert_eq!(o.target.href, "http://example.org/c?d=1");
    assert_eq!(o.method, "POST");
    assert_eq!(o.hops, 1);
    assert!(o.headers.contains_key("authorization"));

    let s = sent(&cfg, "http://example.org/a/b", "POST");
    let (s, _) = step(&cfg, s, redirect(302, "http://other.example/"));
    let o = resolving(s);
    assert_eq!(o.method, "GET");
    assert!(!o.headers.contains_key("authorization"));
    assert!(!o.headers.contains_key("cookie"));
    assert_eq!(o.headers.get("x-kept").unwrap(), "k");

    let s = sent(&cfg, "http://example.org/", "POST");
    let (s, _) = step(&cfg, s, redirect(308, "http://example.org:8080/"));
    assert!(!resolving(s).headers.contains_key("cookie"));

    let s = sent(&cfg, "http://example.org/", "HEAD");
    let (s, _) = step(&cfg, s, redirect(301, "/x"));
    assert_eq!(resolving(s).method, "HEAD");
    let s = sent(&cfg, "http://example.org/", "HEAD");
    let (s, _) = step(&cfg, s, redirect(303, "/x"));
    assert_eq!(resolving(s).method, "GET");
}

#[test]
fn redirects_that_are_not_followed() {
    let cfg = ProxyConfig::default();
    for event in [
        redirect(200, "/x"),
        redirect(302, "ftp://example.org/"),
        redirect(302, "http://"),
        redirect(302, "caf\u{e9}"),
        ProxyEvent::Response { status: 302, headers: vec![] },
    ] {
        let s = sent(&cfg, "http://example.org/", "GET");
        let (s, a) = step(&cfg, s, event);
        assert!(matches!(a, ProxyAction::Read));
        assert!(matches!(s, ProxyState::Reading { .. }));
    }
    let s = sent(&cfg, "http://example.org/", "GET");
    let (s, _) = step_with(&cfg, s, redirect(302, "/x"), None);
    assert!(matches!(s, ProxyState::Reading { .. }));
}

#[test]
fn at_most_five_redirects_are_followed_and_each_is_checked() {
    let cfg = ProxyConfig::default();
    let mut s = sent(&cfg, "http://example.org/", "GET");
    for i in 0..5 {
        let (t, a) = step(&cfg, s, redirect(302, "/again"));
        assert!(matches!(a, ProxyAction::Lookup { .. }), "hop {i}");
        let (t, a) = step(&cfg, t, ProxyEvent::Addresses(vec![ip("8.8.8.8")]));
        assert!(matches!(a, ProxyAction::Send));
        s = t;
    }
    let (s, a) = step(&cfg, s, redirect(302, "/again"));
    assert!(matches!(a, ProxyAction::Read));
    assert!(matches!(s, ProxyState::Reading { status: 302, .. }));

    let s = sent(&cfg, "http://example.org/", "GET");
    let (s, _) = step(&cfg, s, redirect(302, "http://inner.example/"));
    let (_, a) = step(&cfg, s, ProxyEvent::Addresses(vec![ip("10.0.0.1")]));
    assert_eq!(failure_of(&a), (403, "address not allowed".to_string()));
}

#[test]
fn a_body_is_encoded_however_it_is_cut() {
    let whole: Vec<u8> = (0..=255u8).collect();
    let expected = encode(&whole);
    for size in [1usize, 2, 3, 4, 7, 100, 256] {
        let mut body = BodyStream::new();
        for chunk in whole.chunks(size) {
            body = body.push(&chunk.to_vec()).ok().unwrap();
        }
        assert_eq!(body.finish(), expected, "chunks of {size}");
    }
    assert_eq!(BodyStream::new().finish(), "");
}

#[test]
fn large_and_broken_bodies_are_refused() {
    let cfg = ProxyConfig::default();
    let read = |s: ProxyState| step(&cfg, s, ProxyEvent::Response { status: 200, headers: vec![] }).0;
    let s = read(sent(&cfg, "http://example.org/", "GET"));
    let (s, a) = step(&cfg, s, ProxyEvent::Chunk(vec![0u8; MAX_RESPONSE_BYTES as usize]));
    assert!(matches!(a, ProxyAction::Read));
    let (_, a) = step(&cfg, s, ProxyEvent::Chunk(vec![0u8]));
    assert_eq!(failure_of(&a), (502, "response too large".to_string()));
    let s = read(sent(&cfg, "http://example.org/", "GET"));
    let (s, a) = step(&cfg, s, ProxyEvent::BodyFailed);
    assert_eq!(failure_of(&a), (502, "upstream body error".to_string()));
    let (_, a) = step(&cfg, s, ProxyEvent::BodyEnd);
    assert!(matches!(a, ProxyAction::Nothing));
}

#[test]
fn reply_headers_are_visible_text() {
    let v = to_value(&header_map_to_json(&vec![
        header("a", "1"),
        ("b".to_string(), vec![0xff]),
        header("a", "2\t"),
    ]));
    assert_eq!(v.as_object().unwrap().len(), 1);
    assert_eq!(v["a"], "2\t");
    assert_eq!(header_text(&vec![127]), None);
    assert_eq!(header_text(&b"ok".to_vec()), Some("ok".to_string()));
}
