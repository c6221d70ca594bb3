use xnetify::nat_table::{
    ip_to_u32, parse_ipv4_header, parse_tcp_header, parse_udp_header, u32_to_ip, NatManager, Protocol,
};

#[test]
fn test_ip_conversion() {
    let ip = "192.168.1.1";
    let addr = ip_to_u32(ip).unwrap();
    assert_eq!(u32_to_ip(addr), ip);
}

#[test]
fn test_nat_key() {
    let mut manager = NatManager::new();
    let ip = ip_to_u32("10.0.0.1").unwrap();

    let entry = manager
        .create_mapping(ip, 12345, ip_to_u32("1.2.3.4").unwrap(), Protocol::TCP, ip_to_u32("8.8.8.8").unwrap(), 80)
        .unwrap();

    assert_eq!(entry.external_port, 40000);
}

#[test]
fn ip_to_u32_values() {
    assert_eq!(ip_to_u32("192.168.1.1"), Some(0xC0A80101));
    assert_eq!(ip_to_u32("0.0.0.0"), Some(0));
    assert_eq!(ip_to_u32("255.255.255.255"), Some(u32::MAX));
    assert_eq!(ip_to_u32("1.2.3"), None);
    assert_eq!(ip_to_u32("1.2.3.4.5"), None);
    // A piece that is not an octet is skipped.
    assert_eq!(ip_to_u32("1.2.x.3.4"), Some(0x01020304));
    assert_eq!(ip_to_u32("1.2.3.256"), None);
    assert_eq!(ip_to_u32(""), None);
}

#[test]
fn u32_to_ip_values() {
    assert_eq!(u32_to_ip(0x08080808), "8.8.8.8");
    assert_eq!(u32_to_ip(0), "0.0.0.0");
    assert_eq!(u32_to_ip(0x0A000001), "10.0.0.1");
    assert_eq!(u32_to_ip(u32::MAX), "255.255.255.255");
}

#[test]
fn ip_round_trip_both_ways() {
    for addr in [0u32, 1, 0x7F000001, 0xC0A80001, 0xDEADBEEF, u32::MAX] {
        assert_eq!(ip_to_u32(&u32_to_ip(addr)), Some(addr));
    }
    // Leading zeros read, but print without them.
    assert_eq!(u32_to_ip(ip_to_u32("01.2.3.4").unwrap()), "1.2.3.4");
}

#[test]
fn ports_handed_out_in_turn() {
    let mut manager = NatManager::new();
    let ext = ip_to_u32("1.2.3.4").unwrap();
    let a = manager.create_mapping(1, 1000, ext, Protocol::TCP, 2, 80).unwrap();
    let b = manager.create_mapping(1, 1001, ext, Protocol::UDP, 2, 53).unwrap();
    assert_eq!(a.external_port, 40000);
    assert_eq!(b.external_port, 40001);
    assert_eq!(b.protocol, Protocol::UDP);
    assert_eq!(a.created_at, a.last_active);
}

#[test]
fn ports_wrap_after_60000() {
    let mut manager = NatManager::new();
    let mut last = 0u16;
    for _ in 0..20002 {
        last = manager.create_mapping_at(1, 2, 3, Protocol::TCP, 4, 5, 0).unwrap().external_port;
    }
    assert_eq!(last, 40000);
}

#[test]
fn find_and_remove_mappings() {
    let mut manager = NatManager::default();
    let ext = ip_to_u32("1.2.3.4").unwrap();
    let internal = ip_to_u32("10.0.0.2").unwrap();
    let e = manager.create_mapping_at(internal, 5555, ext, Protocol::TCP, 0x08080808, 443, 100).unwrap();
    assert_eq!(e.created_at, 100);

    let found = manager.find_by_external_at(ext, e.external_port, Protocol::TCP, 150).unwrap();
    assert_eq!(found.internal_ip, internal);
    assert_eq!(found.internal_port, 5555);
    assert_eq!(found.target_port, 443);
    assert_eq!(found.created_at, 100);
    assert_eq!(found.last_active, 150);
    assert!(manager.find_by_external_at(ext, e.external_port, Protocol::UDP, 150).is_none());

    let by_internal = manager.find_by_internal_at(internal, 5555, Protocol::TCP, 200).unwrap();
    assert_eq!(by_internal.external_port, e.external_port);
    assert_eq!(by_internal.last_active, 200);
    assert!(manager.find_by_internal(internal, 5556, Protocol::TCP).is_none());
    assert!(manager.find_by_internal(internal, 5555, Protocol::TCP).is_some());

    assert!(manager.remove_mapping(ext, e.external_port, Protocol::TCP));
    assert!(!manager.remove_mapping(ext, e.external_port, Protocol::TCP));
    assert!(manager.find_by_external(ext, e.external_port, Protocol::TCP).is_none());
}

#[test]
fn cleanup_drops_only_stale() {
    let mut manager = NatManager::new();
    let old = manager.create_mapping_at(1, 1, 9, Protocol::TCP, 2, 2, 100).unwrap();
    let fresh = manager.create_mapping_at(1, 2, 9, Protocol::TCP, 2, 2, 190).unwrap();
    manager.cleanup_stale_at(60, 200);
    assert!(manager.find_by_external_at(9, old.external_port, Protocol::TCP, 200).is_none());
    assert!(manager.find_by_external_at(9, fresh.external_port, Protocol::TCP, 200).is_some());
}

#[test]
fn cleanup_now_keeps_recent() {
    let mut manager = NatManager::new();
    let e = manager.create_mapping(1, 1, 9, Protocol::UDP, 2, 2).unwrap();
    assert!(manager.cleanup_stale(300));
    assert!(manager.find_by_external(9, e.external_port, Protocol::UDP).is_some());
}

fn sample_tcp_packet() -> Vec<u8> {
    let mut p = vec![
        0x45, 0x00, 0x00, 0x28, 0x00, 0x00, 0x40, 0x00, 0x40, 0x06, 0x00, 0x00, 10, 0, 0, 1, 93, 184, 216, 34,
    ];
    p.extend_from_slice(&[
        0x30, 0x39, 0x01, 0xBB, 0x00, 0x00, 0x00, 0x01, 0x00, 0x00, 0x00, 0x02, 0x50, 0x12, 0xFF, 0xFF, 0, 0, 0, 0,
    ]);
    p
}

#[test]
fn ipv4_header_fields() {
    let p = sample_tcp_packet();
    let h = parse_ipv4_header(&p).unwrap();
    assert_eq!(h.header_len, 20);
    assert_eq!(h.total_len, 40);
    assert_eq!(h.protocol, 6);
    assert_eq!(h.src_ip, 0x0A000001);
    assert_eq!(h.dst_ip, ip_to_u32("93.184.216.34").unwrap());
    let t = parse_tcp_header(&p, &h).unwrap();
    assert_eq!(t.src_port, 12345);
    assert_eq!(t.dst_port, 443);
    assert_eq!(t.seq, 1);
    assert_eq!(t.ack, 2);
    assert_eq!(t.data_offset, 20);
    assert_eq!(t.flags, 0x12);
    let u = parse_udp_header(&p, &h).unwrap();
    assert_eq!(u.src_port, 12345);
    assert_eq!(u.dst_port, 443);
    assert_eq!(u.len, 0);
}

#[test]
fn ipv4_header_rejections() {
    let p = sample_tcp_packet();
    assert!(parse_ipv4_header(&p[..19]).is_none());
    let mut v6 = p.clone();
    v6[0] = 0x65;
    assert!(parse_ipv4_header(&v6).is_none());
    let mut long_ihl = p[..20].to_vec();
    long_ihl[0] = 0x46;
    assert!(parse_ipv4_header(&long_ihl).is_none());
    let h = parse_ipv4_header(&p[..20]).unwrap();
    assert!(parse_tcp_header(&p[..30], &h).is_none());
    assert!(parse_udp_header(&p[..27], &h).is_none());
    assert!(parse_udp_header(&p[..28], &h).is_some());
}

#[test]
fn built_tcp_packet_parses_back() {
    let s = [10, 0, 0, 1];
    let d = [93, 184, 216, 34];
    let p = xnetify::packet::build_tcp_packet_with_options(&s, 40000, &d, 443, 7, 9, 0x12, b"hello", &[2, 4, 5, 0xb4, 1]);
    let h = parse_ipv4_header(&p).unwrap();
    assert_eq!(h.header_len, 20);
    assert_eq!(h.protocol, 6);
    assert_eq!(h.total_len as usize, p.len());
    assert_eq!(h.src_ip, u32::from_be_bytes(s));
    assert_eq!(h.dst_ip, u32::from_be_bytes(d));
    let t = parse_tcp_header(&p, &h).unwrap();
    assert_eq!((t.src_port, t.dst_port, t.seq, t.ack, t.data_offset, t.flags), (40000, 443, 7, 9, 28, 0x12));
}

#[test]
fn found_mapping_is_the_created_one() {
    let mut manager = NatManager::new();
    let e = manager.create_mapping(3, 4444, 9, Protocol::TCP, 5, 443).unwrap();
    let f = manager.find_by_external(9, e.external_port, Protocol::TCP).unwrap();
    assert_eq!(
        (f.internal_ip, f.internal_port, f.external_ip, f.external_port, f.protocol == Protocol::TCP, f.target_ip, f.target_port, f.created_at),
        (e.internal_ip, e.internal_port, e.external_ip, e.external_port, true, e.target_ip, e.target_port, e.created_at)
    );
    assert!(manager.find_by_external(9, e.external_port.wrapping_add(1), Protocol::TCP).is_none());
}
