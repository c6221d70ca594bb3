use xnetify::engine::FilterEngine;
use xnetify::models::{FilterConfig, Mode, UrlRule};
use xnetify::proxy::{
    build_blocked_connect_response, build_blocked_html, build_blocked_response, build_redirect_response,
    build_socks5_reply, extract_host_and_port_from_request, http_connect_decision, http_direct_decision,
    is_connect_request, parse_socks5_request, sni_from_peek, socks5_decide, socks5_decide_sni, socks5_greeting,
    socks5_reply, socks5_upstream_reply_action, socks5_upstream_reply_len, socks5_upstream_request, target_address, upstream_connect_request,
    HttpConnectAction, HttpDirectAction, ProxyConfig, Socks5Decision, Socks5Greeting, Socks5Target, UpstreamReplyAction, BLOCKED_PAGE,
    DEFAULT_REASON,
};

fn teen(rules: Vec<(&str, &str)>) -> FilterEngine {
    let url_rules = rules
        .into_iter()
        .map(|(name, pattern)| UrlRule { name: name.to_string(), pattern: pattern.to_string(), ..Default::default() })
        .collect();
    FilterEngine::new(FilterConfig { mode: Mode::Teen, url_rules, block_categories: vec![], ..Default::default() })
}

#[test]
fn blocked_html_fills_placeholders() {
    let html = build_blocked_html("bad.com", Some("规则A"));
    assert!(html.contains("bad.com"));
    assert!(html.contains("规则A"));
    assert!(!html.contains("DOMAIN_PLACEHOLDER"));
    assert!(!html.contains("REASON_PLACEHOLDER"));
    let expected = BLOCKED_PAGE.replace("DOMAIN_PLACEHOLDER", "bad.com").replace("REASON_PLACEHOLDER", "规则A");
    assert_eq!(html, expected);
    let default = build_blocked_html("x.com", None);
    assert!(default.contains(DEFAULT_REASON));
}

#[test]
fn blocked_responses_carry_lengths() {
    let html = build_blocked_html("bad.com", None);
    let r = build_blocked_response("bad.com", None);
    let head = format!(
        "HTTP/1.1 200 OK\r\nContent-Type: text/html; charset=utf-8\r\nContent-Length: {}\r\nConnection: close\r\n\r\n",
        html.len()
    );
    let mut expected = head.into_bytes();
    expected.extend_from_slice(html.as_bytes());
    assert_eq!(r, expected);

    let c = build_blocked_connect_response("bad.com", Some("r"));
    let html = build_blocked_html("bad.com", Some("r"));
    let expected = format!(
        "HTTP/1.1 200 OK\r\nProxy-Agent: Xnetify/1.0\r\nContent-Type: text/html; charset=utf-8\r\nContent-Length: {}\r\nConnection: close\r\n\r\n{}",
        html.len(),
        html
    );
    assert_eq!(c, expected.into_bytes());

    let page = "<p>é</p>";
    let redirect = build_redirect_response(page);
    let expected = format!(
        "HTTP/1.1 200 OK\r\nContent-Type: text/html; charset=utf-8\r\nContent-Length: 9\r\nConnection: close\r\nCache-Control: no-cache, no-store, must-revalidate\r\nPragma: no-cache\r\nExpires: 0\r\n\r\n{}",
        page
    );
    assert_eq!(redirect, expected.into_bytes());
}

#[test]
fn host_and_port_from_request_line() {
    assert_eq!(
        extract_host_and_port_from_request("GET http://a.com/x HTTP/1.1\r\nHost: b.com\r\n\r\n"),
        ("a.com".to_string(), 80)
    );
    assert_eq!(
        extract_host_and_port_from_request("GET http://example.com:8080/path HTTP/1.1\r\nHost: other.com\r\n\r\n"),
        ("example.com".to_string(), 8080)
    );
    assert_eq!(
        extract_host_and_port_from_request("GET http://example.com HTTP/1.1\r\n\r\n"),
        ("example.com".to_string(), 80)
    );
    assert_eq!(
        extract_host_and_port_from_request("GET http://example.com:81 HTTP/1.1\r\n"),
        ("example.com".to_string(), 81)
    );
    assert_eq!(
        extract_host_and_port_from_request("GET http://example.com:bad HTTP/1.1\r\n"),
        ("example.com".to_string(), 80)
    );
}

#[test]
fn host_and_port_from_host_header() {
    // The request-line URL comes first, with or without a port.
    assert_eq!(
        extract_host_and_port_from_request("GET http://a.com/x HTTP/1.1\r\nHOST: b.com\r\n\r\n"),
        ("a.com".to_string(), 80)
    );
    assert_eq!(
        extract_host_and_port_from_request("GET / HTTP/1.1\r\nUser-Agent: x\r\nHost: site.org\r\n\r\n"),
        ("site.org".to_string(), 80)
    );
    assert_eq!(
        extract_host_and_port_from_request("GET / HTTP/1.1\r\nHOST: b.com\r\n\r\n"),
        ("b.com".to_string(), 80)
    );
    // A port in the header is read.
    assert_eq!(
        extract_host_and_port_from_request("GET /index.html HTTP/1.1\r\nHost: example.com:8080\r\n\r\n"),
        ("example.com".to_string(), 8080)
    );
    assert_eq!(extract_host_and_port_from_request("GET / HTTP/1.1\r\n\r\n"), (String::new(), 80));
    assert_eq!(extract_host_and_port_from_request(""), (String::new(), 80));
}

#[test]
fn socks5_greetings() {
    match socks5_greeting(&[5, 1, 0]) {
        Socks5Greeting::Accept(v) => assert_eq!(v, vec![5, 0]),
        _ => panic!("expected accept"),
    }
    match socks5_greeting(&[5, 2, 2, 0]) {
        Socks5Greeting::Accept(v) => assert_eq!(v, vec![5, 0]),
        _ => panic!("expected accept"),
    }
    match socks5_greeting(&[5, 1, 2]) {
        Socks5Greeting::Reject(v) => assert_eq!(v, vec![5, 0xFF]),
        _ => panic!("expected reject"),
    }
    assert!(matches!(socks5_greeting(&[4, 1, 0]), Socks5Greeting::Drop));
    assert!(matches!(socks5_greeting(&[5, 0]), Socks5Greeting::Drop));
}

#[test]
fn socks5_requests_parsed() {
    let t = parse_socks5_request(&[5, 1, 0, 1, 93, 184, 216, 34, 0x01, 0xBB]).unwrap();
    assert_eq!((t.host.as_str(), t.port, t.atyp), ("93.184.216.34", 443, 1));
    let mut req = vec![5, 1, 0, 3, 11];
    req.extend_from_slice(b"example.com");
    req.extend_from_slice(&[0x00, 0x50]);
    let t = parse_socks5_request(&req).unwrap();
    assert_eq!((t.host.as_str(), t.port, t.atyp), ("example.com", 80, 3));
    assert!(parse_socks5_request(&req[..req.len() - 1]).is_none());
    assert!(parse_socks5_request(&[5, 2, 0, 1, 1, 2, 3, 4, 0, 80]).is_none());
    assert!(parse_socks5_request(&[5, 1, 0, 4, 1, 2, 3, 4, 0, 80]).is_none());
    assert!(parse_socks5_request(&[5, 1, 0, 1, 1, 2, 3, 4, 0]).is_none());
    let lossy = parse_socks5_request(&[5, 1, 0, 3, 2, b'a', 0xff, 0, 80, 0]).unwrap();
    assert_eq!(lossy.host, "a\u{fffd}");
}

#[test]
fn socks5_replies() {
    assert_eq!(socks5_reply(2), vec![5, 2, 0, 1, 0, 0, 0, 0, 0, 0]);
    assert_eq!(build_socks5_reply(0, "0.0.0.0", 0x1F90), vec![5, 0, 0, 1, 0, 0, 0, 0, 0x1F, 0x90]);
}

#[test]
fn socks5_decisions() {
    let engine = teen(vec![("no bad", "bad.com")]);
    let bad = Socks5Target { host: "bad.com".to_string(), port: 443, atyp: 3 };
    match socks5_decide(&engine, &bad, false) {
        Socks5Decision::Refuse(v) => assert_eq!(v, vec![5, 2, 0, 1, 0, 0, 0, 0, 0, 0]),
        _ => panic!("expected refusal"),
    }
    let good = Socks5Target { host: "good.com".to_string(), port: 80, atyp: 3 };
    match socks5_decide(&engine, &good, false) {
        Socks5Decision::Proceed(h) => assert_eq!(h, "good.com"),
        _ => panic!("expected proceed"),
    }
    let ip = Socks5Target { host: "1.2.3.4".to_string(), port: 443, atyp: 1 };
    assert!(matches!(socks5_decide(&engine, &ip, true), Socks5Decision::PeekSni));
    let ip80 = Socks5Target { host: "1.2.3.4".to_string(), port: 80, atyp: 1 };
    assert!(matches!(socks5_decide(&engine, &ip80, true), Socks5Decision::Proceed(_)));
    let star = teen(vec![("star", "*")]);
    assert!(matches!(socks5_decide(&star, &good, false), Socks5Decision::Fault));
}

#[test]
fn socks5_decisions_on_server_name() {
    let engine = teen(vec![("no bad", "bad.com")]);
    let ip = Socks5Target { host: "1.2.3.4".to_string(), port: 443, atyp: 1 };
    match socks5_decide_sni(&engine, &ip, None) {
        Socks5Decision::Proceed(h) => assert_eq!(h, "1.2.3.4"),
        _ => panic!("expected proceed"),
    }
    match socks5_decide_sni(&engine, &ip, Some("www.good.com".to_string())) {
        Socks5Decision::Proceed(h) => assert_eq!(h, "www.good.com"),
        _ => panic!("expected proceed"),
    }
    assert!(matches!(socks5_decide_sni(&engine, &ip, Some("bad.com".to_string())), Socks5Decision::Refuse(_)));
}

#[test]
fn sni_peek_needs_more_than_five_bytes() {
    assert_eq!(sni_from_peek(&[0x16, 3, 1, 0, 5]), None);
    assert_eq!(sni_from_peek(&[0x17, 3, 1, 0, 5, 6]), None);
}

#[test]
fn socks5_upstream_requests() {
    let mut expected = vec![5, 1, 0, 3, 7];
    expected.extend_from_slice(b"foo.com");
    expected.extend_from_slice(&[0x01, 0xBB]);
    assert_eq!(socks5_upstream_request("foo.com", 443, 3), expected);
    assert_eq!(socks5_upstream_request("10.1.2.3", 80, 1), vec![5, 1, 0, 1, 10, 1, 2, 3, 0, 80]);
    assert_eq!(socks5_upstream_request("10.x.2.3", 80, 1), vec![5, 1, 0, 1, 10, 0, 2, 3, 0, 80]);
    assert_eq!(socks5_upstream_reply_len("foo.com", 3), 14);
    assert_eq!(socks5_upstream_reply_len("1.2.3.4", 1), 10);
}

#[test]
fn connect_requests_decided() {
    assert!(is_connect_request(b"CONNECT a.com:443 HTTP/1.1\r\n\r\n"));
    assert!(!is_connect_request(b"GET / HTTP/1.1\r\n\r\n"));
    let engine = teen(vec![("no bad", "bad.com")]);
    match http_connect_decision(&engine, b"CONNECT good.com:8443 HTTP/1.1\r\nHost: good.com\r\n\r\n") {
        HttpConnectAction::Tunnel { host, port } => {
            assert_eq!(host, "good.com");
            assert_eq!(port, 8443);
        }
        _ => panic!("expected tunnel"),
    }
    match http_connect_decision(&engine, b"CONNECT good.com HTTP/1.1\r\n\r\n") {
        HttpConnectAction::Tunnel { host, port } => assert_eq!((host.as_str(), port), ("good.com", 443)),
        _ => panic!("expected tunnel"),
    }
    match http_connect_decision(&engine, b"CONNECT bad.com:443 HTTP/1.1\r\n\r\n") {
        HttpConnectAction::Block(v) => assert_eq!(v, build_blocked_connect_response("bad.com", Some("no bad"))),
        _ => panic!("expected block"),
    }
    let star = teen(vec![("star", "*")]);
    assert!(matches!(http_connect_decision(&star, b"CONNECT a.com:443 HTTP/1.1\r\n\r\n"), HttpConnectAction::Fault));
}

#[test]
fn plain_requests_decided() {
    let engine = teen(vec![("no bad", "bad.com")]);
    match http_direct_decision(&engine, b"GET http://good.com:8080/ HTTP/1.1\r\n\r\n") {
        HttpDirectAction::Connect { host, port } => assert_eq!((host.as_str(), port), ("good.com", 8080)),
        _ => panic!("expected connect"),
    }
    match http_direct_decision(&engine, b"GET / HTTP/1.1\r\nHost: bad.com\r\n\r\n") {
        HttpDirectAction::Block(v) => {
            let html = build_blocked_html("bad.com", Some("no bad"));
            assert_eq!(v, build_redirect_response(&html));
        }
        _ => panic!("expected block"),
    }
    assert!(matches!(http_direct_decision(&engine, b"GET / HTTP/1.1\r\n\r\n"), HttpDirectAction::Drop));
}

#[test]
fn addresses_and_upstream_connect() {
    assert_eq!(target_address("a.com", 443), "a.com:443");
    assert_eq!(upstream_connect_request("a.com", 443), "CONNECT a.com:443\r\n\r\n");
    let c = ProxyConfig::default();
    assert_eq!(c.local_port, 7890);
    assert!(c.direct_mode);
    assert!(c.upstream_host.is_none() && c.upstream_port.is_none());
}

#[test]
fn upstream_reply_decided() {
    assert_eq!(socks5_upstream_reply_action(&[5, 0, 0, 1, 0, 0, 0, 0, 0, 0]), UpstreamReplyAction::ForwardAndRelay);
    assert_eq!(socks5_upstream_reply_action(&[5, 2, 0, 1, 0, 0, 0, 0, 0, 0]), UpstreamReplyAction::ForwardAndClose);
    assert_eq!(socks5_upstream_reply_action(&[4, 0, 0, 1, 0, 0, 0, 0, 0, 0]), UpstreamReplyAction::Refuse(1));
    assert_eq!(socks5_upstream_reply_action(&[]), UpstreamReplyAction::Refuse(1));
}
