use xnetify::sni_filter::{DnsParser, SniExtractor};

/// The ClientHello body up to the extensions: client version, random, an
/// empty session id, one cipher suite, one compression method.
fn hello_body_prefix() -> Vec<u8> {
    let mut v = vec![0x03, 0x03];
    v.extend_from_slice(&[0u8; 32]);
    v.push(0x00); // session id length
    v.extend_from_slice(&[0x00, 0x02, 0x13, 0x01]); // cipher suites
    v.extend_from_slice(&[0x01, 0x00]); // compression methods
    v
}

/// A TLS record (type 22) holding a handshake of type ClientHello.
fn record(body: &[u8]) -> Vec<u8> {
    let hs_len = body.len();
    let rec_len = hs_len + 4;
    let mut v = vec![0x16, 0x03, 0x01, (rec_len >> 8) as u8, rec_len as u8];
    v.extend_from_slice(&[0x01, (hs_len >> 16) as u8, (hs_len >> 8) as u8, hs_len as u8]);
    v.extend_from_slice(body);
    v
}

fn hello_prefix() -> Vec<u8> {
    record(&hello_body_prefix())
}

fn sni_extension(name: &[u8]) -> Vec<u8> {
    let entry_len = name.len() + 3;
    let mut data = vec![(entry_len >> 8) as u8, entry_len as u8, 0x00, (name.len() >> 8) as u8, name.len() as u8];
    data.extend_from_slice(name);
    let mut ext = vec![0x00, 0x00, (data.len() >> 8) as u8, data.len() as u8];
    ext.extend_from_slice(&data);
    ext
}

fn hello(extensions: &[u8]) -> Vec<u8> {
    let mut body = hello_body_prefix();
    body.extend_from_slice(&[(extensions.len() >> 8) as u8, extensions.len() as u8]);
    body.extend_from_slice(extensions);
    record(&body)
}

#[test]
fn sni_of_a_real_client_hello() {
    let mut tls = vec![0x16, 0x03, 0x01, 0x00, 0x3C, 0x01, 0x00, 0x00, 0x38, 0x03, 0x03];
    tls.extend_from_slice(&[0u8; 32]);
    tls.extend_from_slice(&[
        0x00, 0x00, 0x02, 0x13, 0x01, 0x01, 0x00, 0x00, 0x0D, 0x00, 0x00, 0x00, 0x09, 0x00, 0x07, 0x00,
        0x00, 0x04, 0x78, 0x2E, 0x69, 0x6F,
    ]);
    assert_eq!(SniExtractor::extract_sni(&tls), Some("x.io".to_string()));
}

#[test]
fn sni_after_a_bad_server_name_extension() {
    let mut exts = sni_extension(b"");
    exts.extend_from_slice(&sni_extension(b"good.org"));
    assert_eq!(SniExtractor::extract_sni(&hello(&exts)).as_deref(), Some("good.org"));
}

#[test]
fn sni_found_in_server_name_extension() {
    let data = hello(&sni_extension(b"example.com"));
    assert_eq!(SniExtractor::extract_sni(&data).as_deref(), Some("example.com"));
}

#[test]
fn sni_after_other_extensions() {
    let mut exts = vec![0x00, 0x0a, 0x00, 0x02, 0x00, 0x17];
    exts.extend_from_slice(&sni_extension(b"www.youtube.com"));
    let data = hello(&exts);
    assert_eq!(SniExtractor::extract_sni(&data).as_deref(), Some("www.youtube.com"));
}

#[test]
fn sni_absent_or_malformed() {
    let mut not_handshake = hello(&sni_extension(b"example.com"));
    not_handshake[0] = 0x17;
    assert_eq!(SniExtractor::extract_sni(&not_handshake), None);
    assert_eq!(SniExtractor::extract_sni(&[]), None);
    assert_eq!(SniExtractor::extract_sni(&hello_prefix()[..20]), None);
    assert_eq!(SniExtractor::extract_sni(&hello(&[0x00, 0x0a, 0x00, 0x02, 0x00, 0x17])), None);
    // A name that is not UTF-8 is no answer.
    assert_eq!(SniExtractor::extract_sni(&hello(&sni_extension(&[0xff, 0xfe]))), None);
    // An empty name is no answer.
    assert_eq!(SniExtractor::extract_sni(&hello(&sni_extension(b""))), None);
    // An extension longer than the data.
    assert_eq!(SniExtractor::extract_sni(&hello(&[0x00, 0x0a, 0x00, 0x09, 0x00])), None);
}

#[test]
fn sni_name_must_fit_extension() {
    let mut ext = sni_extension(b"abc.com");
    // Shrink the declared extension length below the name.
    ext[3] = 6;
    assert_eq!(SniExtractor::extract_sni(&hello(&ext)), None);
}

fn query(labels: &[&[u8]], flags: u16, qdcount: u16) -> Vec<u8> {
    let mut p = vec![0x12, 0x34];
    p.extend_from_slice(&flags.to_be_bytes());
    p.extend_from_slice(&qdcount.to_be_bytes());
    p.extend_from_slice(&[0, 0, 0, 0, 0, 0]);
    for l in labels {
        p.push(l.len() as u8);
        p.extend_from_slice(l);
    }
    p.push(0);
    p.extend_from_slice(&[0, 1, 0, 1]);
    p
}

#[test]
fn dns_domain_from_query() {
    let q = query(&[b"www", b"example", b"com"], 0x0100, 1);
    assert_eq!(DnsParser::extract_domain(&q).as_deref(), Some("www.example.com"));
}

#[test]
fn dns_domain_refusals() {
    assert_eq!(DnsParser::extract_domain(&[0u8; 11]), None);
    assert_eq!(DnsParser::extract_domain(&query(&[b"a", b"com"], 0x8180, 1)), None);
    assert_eq!(DnsParser::extract_domain(&query(&[b"a", b"com"], 0x0100, 0)), None);
    assert_eq!(DnsParser::extract_domain(&query(&[], 0x0100, 1)), None);
    let mut truncated = query(&[b"example"], 0x0100, 1);
    truncated.truncate(15);
    assert_eq!(DnsParser::extract_domain(&truncated), None);
}

#[test]
fn dns_domain_lossy_and_pointer() {
    let q = query(&[&[b'a', 0xff], b"com"], 0x0100, 1);
    assert_eq!(DnsParser::extract_domain(&q).as_deref(), Some("a\u{fffd}.com"));
    let mut p = query(&[b"mail"], 0x0100, 1);
    // Replace the terminating zero with a compression pointer.
    p.truncate(17);
    p.extend_from_slice(&[0xC0, 0x0C]);
    assert_eq!(DnsParser::extract_domain(&p).as_deref(), Some("mail"));
}

#[test]
fn dns_blocked_response_appends_answer() {
    let q = query(&[b"bad", b"com"], 0x0100, 1);
    let r = DnsParser::build_blocked_response(&q).unwrap();
    assert_eq!(r.len(), q.len() + 16);
    assert_eq!(&r[0..2], &q[0..2]);
    assert_eq!(r[2], q[2] | 0x80);
    assert_eq!(r[3], 0x83);
    assert_eq!(&r[4..6], &q[4..6]);
    assert_eq!(&r[6..8], &[0x00, 0x01]);
    assert_eq!(&r[8..q.len()], &q[8..]);
    assert_eq!(&r[q.len()..], &[0xC0, 0x0C, 0, 1, 0, 1, 0, 0, 0, 0x78, 0, 4, 0, 0, 0, 0]);
    assert_eq!(DnsParser::build_blocked_response(&q[..11]), None);
}
