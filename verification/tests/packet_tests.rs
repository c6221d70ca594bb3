use xnetify::packet::{
    build_dns_blocked_response, build_dns_relay_response, build_tcp_packet, build_tcp_packet_with_options,
    calc_ip_checksum, calc_tcp_checksum, calc_udp_checksum, copy_range, is_dns_packet, is_tcp_packet,
};

fn ones_complement_sum(bytes: &[u8]) -> u32 {
    let mut sum: u32 = 0;
    let mut i = 0;
    while i + 1 < bytes.len() {
        sum += ((bytes[i] as u32) << 8) | bytes[i + 1] as u32;
        i += 2;
    }
    if bytes.len() % 2 == 1 {
        sum += (bytes[bytes.len() - 1] as u32) << 8;
    }
    while sum >> 16 != 0 {
        sum = (sum & 0xffff) + (sum >> 16);
    }
    sum
}

fn pseudo(src: &[u8], dst: &[u8], len: usize, segment: &[u8]) -> Vec<u8> {
    let mut v = Vec::new();
    v.extend_from_slice(src);
    v.extend_from_slice(dst);
    v.push(0);
    v.push(17);
    v.push((len >> 8) as u8);
    v.push((len & 0xff) as u8);
    v.extend_from_slice(segment);
    v
}

#[test]
fn ip_checksum_known_value() {
    let header = [
        0x45, 0x00, 0x00, 0x73, 0x00, 0x00, 0x40, 0x00, 0x40, 0x11, 0x00, 0x00, 0xc0, 0xa8, 0x00, 0x01, 0xc0, 0xa8,
        0x00, 0xc7,
    ];
    assert_eq!(calc_ip_checksum(&header), 0xb861);
    let mut with_sum = header;
    with_sum[10] = 0xb8;
    with_sum[11] = 0x61;
    assert_eq!(calc_ip_checksum(&with_sum), 0);
}

#[test]
fn ip_checksum_odd_length() {
    assert_eq!(calc_ip_checksum(&[0x01]), !0x0100u16);
    assert_eq!(calc_ip_checksum(&[0x01, 0x02, 0x03]), !(0x0102u16 + 0x0300));
    assert_eq!(calc_ip_checksum(&[0xff, 0xff, 0x00, 0x01]), !0x0001u16);
}

#[test]
fn tcp_and_udp_checksums_cover_pseudo_header() {
    let src = [10, 0, 0, 1];
    let dst = [10, 0, 0, 2];
    let data = [1u8, 2, 3, 4, 5];
    let tcp = calc_tcp_checksum(&src, &dst, 6, &data);
    let mut p = vec![10, 0, 0, 1, 10, 0, 0, 2, 0, 6, 0, 5];
    p.extend_from_slice(&data);
    assert_eq!(tcp, calc_ip_checksum(&p));
    let udp = calc_udp_checksum(&src, &dst, 17, 13, &data);
    let mut q = vec![10, 0, 0, 1, 10, 0, 0, 2, 0, 17, 0, 13];
    q.extend_from_slice(&data);
    assert_eq!(udp, calc_ip_checksum(&q));
}

#[test]
fn tcp_packet_layout() {
    let src = [10, 0, 0, 2];
    let dst = [192, 168, 1, 5];
    let data = b"hello";
    let pkt = build_tcp_packet(&src, 443, &dst, 51000, 0x01020304, 0x0A0B0C0D, 0x18, data);
    assert_eq!(pkt.len(), 45);
    assert_eq!(&pkt[0..2], &[0x45, 0x00]);
    assert_eq!(&pkt[2..4], &[0, 45]);
    assert_eq!(pkt[8], 64);
    assert_eq!(pkt[9], 6);
    assert_eq!(&pkt[12..16], &src);
    assert_eq!(&pkt[16..20], &dst);
    assert_eq!(&pkt[20..22], &443u16.to_be_bytes());
    assert_eq!(&pkt[22..24], &51000u16.to_be_bytes());
    assert_eq!(&pkt[24..28], &[1, 2, 3, 4]);
    assert_eq!(&pkt[28..32], &[0x0A, 0x0B, 0x0C, 0x0D]);
    assert_eq!(pkt[32], 0x50);
    assert_eq!(pkt[33], 0x18);
    assert_eq!(&pkt[34..36], &[0xff, 0xff]);
    assert_eq!(&pkt[40..], b"hello");
    // Both checksums verify.
    assert_eq!(ones_complement_sum(&pkt[0..20]), 0xffff);
    let mut ph = vec![10, 0, 0, 2, 192, 168, 1, 5, 0, 6, 0, 25];
    ph.extend_from_slice(&pkt[20..]);
    assert_eq!(ones_complement_sum(&ph), 0xffff);
}

#[test]
fn tcp_packet_with_options_padded() {
    let src = [1, 1, 1, 1];
    let dst = [2, 2, 2, 2];
    let options = [0x02, 0x04, 0x05, 0xb4, 0x01];
    let pkt = build_tcp_packet_with_options(&src, 1, &dst, 2, 0, 0, 0x12, &[], &options);
    assert_eq!(pkt.len(), 48);
    assert_eq!(pkt[32], 0x70);
    assert_eq!(&pkt[40..45], &options);
    assert_eq!(&pkt[45..48], &[0, 0, 0]);
    assert_eq!(ones_complement_sum(&pkt[0..20]), 0xffff);
}

#[test]
fn packet_classification() {
    let pkt = build_tcp_packet(&[1, 2, 3, 4], 1, &[5, 6, 7, 8], 2, 0, 0, 0x02, &[]);
    assert!(is_tcp_packet(&pkt));
    assert!(!is_tcp_packet(&pkt[..39]));
    assert!(!is_dns_packet(&pkt));
    let mut udp = vec![0x45u8, 0, 0, 28, 0, 0, 0, 0, 64, 17, 0, 0, 10, 0, 0, 1, 8, 8, 8, 8];
    udp.extend_from_slice(&[0xd4, 0x31, 0x00, 0x35, 0, 8, 0, 0]);
    assert!(is_dns_packet(&udp));
    udp[23] = 0x36;
    assert!(!is_dns_packet(&udp));
    assert!(!is_dns_packet(&udp[..27]));
}

#[test]
fn copy_range_takes_slice() {
    assert_eq!(copy_range(&[1, 2, 3, 4, 5], 1, 4), vec![2, 3, 4]);
    assert_eq!(copy_range(&[1, 2, 3], 3, 3), Vec::<u8>::new());
}

fn dns_query_packet() -> Vec<u8> {
    let dns: Vec<u8> = vec![
        0x12, 0x34, 0x01, 0x00, 0x00, 0x01, 0x00, 0x00, 0x00, 0x00, 0x00, 0x00, 3, b'w', b'w', b'w', 1, b'a', 3,
        b'c', b'o', b'm', 0, 0x00, 0x01, 0x00, 0x01,
    ];
    let total = 28 + dns.len();
    let mut p = vec![0x45, 0, 0, total as u8, 0, 0, 0, 0, 64, 17, 0, 0, 10, 0, 0, 2, 8, 8, 8, 8];
    p.extend_from_slice(&[0xc3, 0x50, 0x00, 0x35, 0, (8 + dns.len()) as u8, 0, 0]);
    p.extend_from_slice(&dns);
    p
}

#[test]
fn blocked_dns_answer_points_back() {
    let q = dns_query_packet();
    let r = build_dns_blocked_response(&q, &[127, 0, 0, 1]).unwrap();
    assert_eq!(r.len(), q.len() + 16);
    assert_eq!(&r[12..16], &[8, 8, 8, 8]);
    assert_eq!(&r[16..20], &[10, 0, 0, 2]);
    assert_eq!(&r[20..22], &[0x00, 0x35]);
    assert_eq!(&r[22..24], &[0xc3, 0x50]);
    assert_eq!(&r[2..4], &(r.len() as u16).to_be_bytes());
    assert_eq!(&r[24..26], &((r.len() - 20) as u16).to_be_bytes());
    assert_eq!(&r[28..30], &[0x12, 0x34]);
    assert_eq!(&r[30..32], &[0x81, 0x80]);
    assert_eq!(&r[34..36], &[0x00, 0x01]);
    assert_eq!(&r[q.len()..], &[0xC0, 0x0C, 0, 1, 0, 1, 0, 0, 0, 0x3C, 0, 4, 127, 0, 0, 1]);
    assert_eq!(ones_complement_sum(&r[0..20]), 0xffff);
    // The UDP checksum covers the pseudo header and the DNS payload.
    let ph = pseudo(&r[16..20], &r[12..16], r.len() - 20, &r[28..]);
    assert_eq!(&r[26..28], &((0xffff - ones_complement_sum(&ph)) as u16).to_be_bytes());
}

#[test]
fn blocked_dns_answer_needs_dns_header() {
    let q = dns_query_packet();
    assert!(build_dns_blocked_response(&q[..39], &[1, 2, 3, 4]).is_none());
    assert!(build_dns_blocked_response(&q[..40], &[1, 2, 3, 4]).is_some());
}

#[test]
fn relayed_dns_answer_wraps_response() {
    let q = dns_query_packet();
    let response = [0x12u8, 0x34, 0x81, 0x80, 0, 1, 0, 1, 0, 0, 0, 0];
    let r = build_dns_relay_response(&q, &response);
    assert_eq!(r.len(), 28 + response.len());
    assert_eq!(r[0], 0x45);
    assert_eq!(&r[12..16], &[8, 8, 8, 8]);
    assert_eq!(&r[16..20], &[10, 0, 0, 2]);
    assert_eq!(&r[20..22], &[0x00, 0x35]);
    assert_eq!(&r[22..24], &[0xc3, 0x50]);
    assert_eq!(&r[24..26], &(8 + response.len() as u16).to_be_bytes());
    assert_eq!(&r[28..], &response);
    assert_eq!(ones_complement_sum(&r[0..20]), 0xffff);
    let ph = pseudo(&r[16..20], &r[12..16], 8 + response.len(), &r[28..]);
    assert_eq!(&r[26..28], &((0xffff - ones_complement_sum(&ph)) as u16).to_be_bytes());
}
