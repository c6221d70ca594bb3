use xnetify::block_server::{
    block_server_response, build_block_page_html, build_http_response, extract_domain_from_request,
    get_block_server_port, get_block_server_url, BLOCK_PAGE_HEAD, BLOCK_PAGE_TAIL, UNKNOWN_SITE,
};
use xnetify::dns_server::{
    build_dns_response, dns_query_answer, extract_domain_from_dns, find_question_end, get_dns_port, DnsServerAction,
    LOCAL_IP,
};
use xnetify::engine::FilterEngine;
use xnetify::models::{FilterConfig, Mode, UrlRule};

fn query(name: &[&[u8]]) -> Vec<u8> {
    let mut q = vec![0xAB, 0xCD, 0x01, 0x00, 0x00, 0x01, 0, 0, 0, 0, 0, 0];
    for l in name {
        q.push(l.len() as u8);
        q.extend_from_slice(l);
    }
    q.push(0);
    q.extend_from_slice(&[0x00, 0x01, 0x00, 0x01]);
    q
}

#[test]
fn dns_ports_and_address() {
    assert_eq!(get_dns_port(), 53);
    assert_eq!(LOCAL_IP, "127.0.0.1");
}

#[test]
fn dns_name_read_byte_per_char() {
    assert_eq!(extract_domain_from_dns(&query(&[b"www", b"example", b"com"])), "www.example.com");
    assert_eq!(extract_domain_from_dns(&query(&[&[0xE9, b'a']])), "\u{e9}a");
    assert_eq!(extract_domain_from_dns(&[0u8; 12]), "");
    let mut cut = query(&[b"abc", b"defgh"]);
    cut.truncate(19);
    assert_eq!(extract_domain_from_dns(&cut), "abc");
}

#[test]
fn dns_question_end() {
    let q = query(&[b"a", b"bc"]);
    // 12 + 2 + 3 = 17 is the terminating zero.
    assert_eq!(find_question_end(&q), 22);
    assert_eq!(find_question_end(&q[..17]), 17);
}

#[test]
fn dns_answers_built() {
    let q = query(&[b"bad", b"com"]);
    let allowed = build_dns_response(&q, None);
    let mut expected = vec![0xAB, 0xCD, 0x81, 0x80, 0x00, 0x01, 0x00, 0x00, 0, 0, 0, 0];
    expected.extend_from_slice(&q[12..]);
    assert_eq!(allowed, expected);

    let blocked = build_dns_response(&q, Some("127.0.0.1"));
    let mut expected = vec![0xAB, 0xCD, 0x81, 0x80, 0x00, 0x01, 0x00, 0x01, 0, 0, 0, 0];
    expected.extend_from_slice(&q[12..]);
    expected.extend_from_slice(&[0xC0, 0x0C, 0, 1, 0, 1, 0, 0, 0, 0x3C, 0, 4, 127, 0, 0, 1]);
    assert_eq!(blocked, expected);

    // An address without four parts gets no record, though the count says one.
    let odd = build_dns_response(&q, Some("1.2.3"));
    assert_eq!(odd.len(), q.len());
    assert_eq!(&odd[6..8], &[0, 1]);
    assert_eq!(build_dns_response(&q[..5], None), q[..5].to_vec());
}

#[test]
fn dns_server_decides() {
    let engine = FilterEngine::new(FilterConfig {
        mode: Mode::Teen,
        url_rules: vec![UrlRule { name: "bad".to_string(), pattern: "bad.com".to_string(), ..Default::default() }],
        ..Default::default()
    });
    let q = query(&[b"bad", b"com"]);
    match dns_query_answer(&engine, &q) {
        DnsServerAction::Answer(v) => assert_eq!(v, build_dns_response(&q, Some("127.0.0.1"))),
        _ => panic!("expected answer"),
    }
    let ok = query(&[b"good", b"org"]);
    match dns_query_answer(&engine, &ok) {
        DnsServerAction::Answer(v) => assert_eq!(v, build_dns_response(&ok, None)),
        _ => panic!("expected answer"),
    }
    assert!(matches!(dns_query_answer(&engine, &q[..11]), DnsServerAction::Ignore));
    // A question whose end runs past the query cannot be answered.
    assert!(matches!(dns_query_answer(&engine, &q[..q.len() - 2]), DnsServerAction::Fault));
}

#[test]
fn block_server_address() {
    assert_eq!(get_block_server_port(), 8888);
    assert_eq!(get_block_server_url(), "http://127.0.0.1:8888");
}

#[test]
fn block_page_and_response() {
    let html = build_block_page_html("bad.com");
    assert_eq!(html, format!("{}bad.com{}", BLOCK_PAGE_HEAD, BLOCK_PAGE_TAIL));
    let r = build_http_response(&html);
    assert_eq!(
        r,
        format!(
            "HTTP/1.1 200 OK\r\nContent-Type: text/html; charset=utf-8\r\nContent-Length: {}\r\nConnection: close\r\nCache-Control: no-cache\r\n\r\n{}",
            html.len(),
            html
        )
    );
}

#[test]
fn block_domain_from_request() {
    assert_eq!(extract_domain_from_request("GET / HTTP/1.1\r\nHost: bad.com:8080\r\n\r\n"), "bad.com");
    assert_eq!(extract_domain_from_request("GET / HTTP/1.1\r\nhOsT:  spaced.org \r\n\r\n"), "spaced.org");
    assert_eq!(extract_domain_from_request("GET http://x.org/a/b HTTP/1.1\r\n\r\n"), "x.org");
    assert_eq!(extract_domain_from_request("POST http://y.org HTTP/1.1\r\n\r\n"), "y.org");
    assert_eq!(extract_domain_from_request("GET https://z.org/ HTTP/1.1\r\n\r\n"), UNKNOWN_SITE);
    assert_eq!(extract_domain_from_request(""), "未知网站");
}

#[test]
fn block_server_answers() {
    let get = block_server_response(b"GET / HTTP/1.1\r\nHost: bad.com\r\n\r\n");
    let html = build_block_page_html("bad.com");
    assert_eq!(get, build_http_response(&html).into_bytes());
    let connect = block_server_response(b"CONNECT bad.com:443 HTTP/1.1\r\nHost: bad.com:443\r\n\r\n");
    let expected = format!(
        "HTTP/1.1 502 Bad Gateway\r\nContent-Type: text/html; charset=utf-8\r\nContent-Length: {}\r\nConnection: close\r\nProxy-Connection: close\r\n\r\n{}",
        html.len(),
        html
    );
    assert_eq!(connect, expected.into_bytes());
}
