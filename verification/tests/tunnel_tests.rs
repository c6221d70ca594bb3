use xnetify::engine::FilterEngine;
use xnetify::models::{FilterConfig, Mode, UrlRule};
use xnetify::packet::{build_dns_blocked_response, build_tcp_packet, build_tcp_packet_with_options};
use xnetify::tunnel::{
    classify_tun_packet, dns_block_is_safe, rst_packet, socks5_client_greeting, socks5_connect_ipv4, socks5_reply_ok,
    tun_dns_action, TcpAction, TcpConnTable, TcpRelay, TunConfig, TunDnsAction, TunError, TunPacketKind, TunResponse,
    TunState, TunStatus,
};

const CLIENT: [u8; 4] = [10, 0, 0, 2];
const SERVER: [u8; 4] = [93, 184, 216, 34];

fn segment(flags: u8, seq: u32, data: &[u8]) -> Vec<u8> {
    build_tcp_packet(&CLIENT, 50000, &SERVER, 443, seq, 0, flags, data)
}

#[test]
fn tun_config_defaults() {
    let c = TunConfig::default();
    assert_eq!(c.device_name, "xnetify0");
    assert_eq!(c.tunnel_ip, "10.0.0.2");
    assert_eq!(c.tunnel_netmask, "255.255.255.0");
    assert_eq!(c.dns_server, "8.8.8.8");
    assert_eq!(c.mtu, 1500);
    assert_eq!(c.upstream_host, "127.0.0.1");
    assert_eq!(c.upstream_port, 1080);
    assert_eq!(c.physical_ip, "");
    let d = c.duplicate();
    assert_eq!(d.device_name, c.device_name);
    let s = TunStatus::default();
    assert!(!s.active && s.config.is_none() && s.bytes_in == 0 && s.bytes_out == 0 && s.error.is_none());
}

#[test]
fn tun_error_messages() {
    assert_eq!(TunError::DeviceCreationFailed("x".to_string()).message(), "创建设备失败: x");
    assert_eq!(TunError::PermissionDenied.message(), "需要管理员/root 权限");
    assert_eq!(TunError::AlreadyRunning.message(), "TUN 设备已在运行");
    assert_eq!(TunError::NotRunning.message(), "TUN 设备未运行");
    assert_eq!(TunError::NetworkConfigFailed("n".to_string()).message(), "网络配置失败: n");
    assert_eq!(TunError::UpstreamConnectionFailed("u".to_string()).message(), "上游连接失败: u");
    assert_eq!(TunError::InvalidConfig("i".to_string()).message(), "无效配置: i");
    assert_eq!(TunError::IoError("e".to_string()).message(), "IO 错误: e");
}

#[test]
fn tun_responses() {
    let ok = TunResponse::ok(5u32);
    assert!(ok.success && ok.data == Some(5) && ok.error.is_none());
    let err: TunResponse<u32> = TunResponse::err("bad".to_string());
    assert!(!err.success && err.data.is_none() && err.error.as_deref() == Some("bad"));
}

#[test]
fn syn_opens_and_fin_closes() {
    let mut table = TcpConnTable::new();
    let syn = build_tcp_packet_with_options(&CLIENT, 50000, &SERVER, 443, 1000, 0, 0x02, &[], &[2, 4, 5, 0xb4]);
    let (key, server_seq, client_ack) = match table.on_segment_at(&syn, 7777) {
        TcpAction::SynAck { key, reply, server_seq, client_ack } => {
            let expected = build_tcp_packet_with_options(&SERVER, 443, &CLIENT, 50000, 7777, 1001, 0x12, &[], &[2, 4, 5, 0xb4]);
            assert_eq!(reply, expected);
            (key, server_seq, client_ack)
        }
        _ => panic!("expected SYN+ACK"),
    };
    assert_eq!((server_seq, client_ack), (7777, 1001));
    // The SYN+ACK decision registers nothing by itself.
    assert!(!table.contains(key));
    table.register(key, server_seq, client_ack);
    assert!(table.contains(key));
    // A repeated SYN for a known connection is ignored.
    assert!(matches!(table.on_segment_at(&syn, 1), TcpAction::Ignore));

    let fin = segment(0x11, 1001, &[]);
    match table.on_segment_at(&fin, 1) {
        TcpAction::Fin { reply, signal_relay } => {
            assert!(!signal_relay);
            assert_eq!(reply, build_tcp_packet(&SERVER, 443, &CLIENT, 50000, 7777, 1001, 0x11, &[]));
        }
        _ => panic!("expected FIN"),
    }
    assert!(!table.contains(key));
    assert!(matches!(table.on_segment_at(&fin, 1), TcpAction::Ignore));
}

#[test]
fn data_held_until_relay_ready() {
    let mut table = TcpConnTable::new();
    let key = match table.on_segment_at(&segment(0x02, 10, &[]), 500) {
        TcpAction::SynAck { key, server_seq, client_ack, .. } => {
            table.register(key, server_seq, client_ack);
            key
        }
        _ => panic!("expected SYN+ACK"),
    };
    match table.on_segment_at(&segment(0x18, 11, b"abc"), 0) {
        TcpAction::Buffered { reply } => {
            assert_eq!(reply, build_tcp_packet(&SERVER, 443, &CLIENT, 50000, 500, 14, 0x10, &[]));
        }
        _ => panic!("expected buffered"),
    }
    assert!(matches!(table.on_segment_at(&segment(0x18, 14, b"de"), 0), TcpAction::Buffered { .. }));
    assert_eq!(table.client_ack(key), Some(16));
    let held = table.mark_ready(key).unwrap();
    assert_eq!(held, vec![b"abc".to_vec(), b"de".to_vec()]);
    match table.on_segment_at(&segment(0x18, 16, b"xyz"), 0) {
        TcpAction::Forward { key: k, reply, data } => {
            assert_eq!(k, key);
            assert_eq!(data, b"xyz".to_vec());
            assert_eq!(reply, build_tcp_packet(&SERVER, 443, &CLIENT, 50000, 500, 19, 0x10, &[]));
        }
        _ => panic!("expected forward"),
    }
    assert_eq!(table.mark_ready(key).unwrap().len(), 0);
    match table.on_segment_at(&segment(0x11, 19, &[]), 0) {
        TcpAction::Fin { signal_relay, .. } => assert!(signal_relay),
        _ => panic!("expected FIN"),
    }
    assert!(table.mark_ready(key).is_none());
}

#[test]
fn acks_rsts_and_unknown_data() {
    let mut table = TcpConnTable::new();
    // Data for an unknown connection is reset.
    match table.on_segment_at(&segment(0x18, 100, b"hi"), 0) {
        TcpAction::Reset { reply } => {
            assert_eq!(reply, build_tcp_packet(&SERVER, 443, &CLIENT, 50000, 0, 102, 0x14, &[]));
        }
        _ => panic!("expected reset"),
    }
    // A bare ACK for an unknown connection, and any RST, are ignored.
    assert!(matches!(table.on_segment_at(&segment(0x10, 5, &[]), 0), TcpAction::Ignore));
    assert!(matches!(table.on_segment_at(&segment(0x04, 5, &[]), 0), TcpAction::Ignore));
    let key = match table.on_segment_at(&segment(0x02, 1, &[]), 9) {
        TcpAction::SynAck { key, server_seq, client_ack, .. } => {
            table.register(key, server_seq, client_ack);
            key
        }
        _ => panic!(),
    };
    assert!(matches!(table.on_segment_at(&segment(0x10, 42, &[]), 0), TcpAction::AckNoted));
    assert_eq!(table.client_ack(key), Some(42));
    assert!(table.remove(key));
    assert!(!table.remove(key));
    // Short packets are ignored.
    assert!(matches!(table.on_segment_at(&segment(0x02, 1, &[])[..39], 0), TcpAction::Ignore));
}

#[test]
fn local_targets_left_alone() {
    let mut table = TcpConnTable::new();
    let to_proxy = build_tcp_packet(&CLIENT, 1, &[127, 0, 0, 1], 7890, 0, 0, 0x02, &[]);
    assert!(matches!(table.on_segment_at(&to_proxy, 0), TcpAction::Ignore));
    let to_tun = build_tcp_packet(&CLIENT, 1, &[10, 0, 0, 1], 80, 0, 0, 0x02, &[]);
    assert!(matches!(table.on_segment_at(&to_tun, 0), TcpAction::Ignore));
    let other_local = build_tcp_packet(&CLIENT, 1, &[127, 0, 0, 1], 22, 0, 0, 0x02, &[]);
    assert!(matches!(table.on_segment_at(&other_local, 0), TcpAction::SynAck { .. }));
    table.clear();
}

#[test]
fn relay_numbers_its_segments() {
    let mut relay = TcpRelay::new(SERVER, 443, CLIENT, 50000, u32::MAX);
    assert_eq!(relay.next_seq, 0);
    let p = relay.data_packet(b"hello", 77);
    assert_eq!(p, build_tcp_packet(&SERVER, 443, &CLIENT, 50000, 0, 77, 0x18, b"hello"));
    assert_eq!(relay.next_seq, 5);
    let f = relay.fin_packet(80);
    assert_eq!(f, build_tcp_packet(&SERVER, 443, &CLIENT, 50000, 5, 80, 0x11, &[]));
}

#[test]
fn reset_packet_from_text_addresses() {
    let r = rst_packet("93.184.216.34", 443, "10.0.0.2", 50000, 1, 2);
    assert_eq!(r, build_tcp_packet(&SERVER, 443, &CLIENT, 50000, 1, 2, 0x14, &[]));
    let z = rst_packet("bad", 443, "10.0.0.2", 50000, 1, 2);
    assert_eq!(z, build_tcp_packet(&[0, 0, 0, 0], 443, &CLIENT, 50000, 1, 2, 0x14, &[]));
}

#[test]
fn socks5_client_side() {
    assert_eq!(socks5_client_greeting(), vec![5, 1, 0]);
    assert!(socks5_reply_ok(&[5, 0]));
    assert!(!socks5_reply_ok(&[5, 1, 0]));
    assert!(!socks5_reply_ok(&[4, 0]));
    assert_eq!(socks5_connect_ipv4(&SERVER, 443), vec![5, 1, 0, 1, 93, 184, 216, 34, 1, 187]);
}

fn dns_query(name: &[&[u8]], src: [u8; 4]) -> Vec<u8> {
    let mut dns = vec![0x12, 0x34, 0x01, 0x00, 0x00, 0x01, 0, 0, 0, 0, 0, 0];
    for l in name {
        dns.push(l.len() as u8);
        dns.extend_from_slice(l);
    }
    dns.extend_from_slice(&[0, 0, 1, 0, 1]);
    let total = 28 + dns.len();
    let mut p = vec![0x45, 0, 0, total as u8, 0, 0, 0, 0, 64, 17, 0, 0];
    p.extend_from_slice(&src);
    p.extend_from_slice(&[8, 8, 8, 8]);
    p.extend_from_slice(&[0xc3, 0x50, 0x00, 0x35, 0, (8 + dns.len()) as u8, 0, 0]);
    p.extend_from_slice(&dns);
    p
}

#[test]
fn tunnel_packets_classified() {
    assert!(matches!(classify_tun_packet(&dns_query(&[b"a", b"com"], CLIENT)), TunPacketKind::Dns));
    assert!(matches!(classify_tun_packet(&segment(0x02, 1, &[])), TunPacketKind::Tcp));
    // Packets from another source are the tunnel's own replies looping back.
    assert!(matches!(classify_tun_packet(&dns_query(&[b"a", b"com"], [10, 0, 0, 1])), TunPacketKind::Skip));
    assert!(matches!(classify_tun_packet(&[0x45; 19]), TunPacketKind::Skip));
    let mut v6 = segment(0x02, 1, &[]);
    v6[0] = 0x60;
    assert!(matches!(classify_tun_packet(&v6), TunPacketKind::Skip));
    let mut icmp = segment(0x02, 1, &[]);
    icmp[9] = 1;
    assert!(matches!(classify_tun_packet(&icmp), TunPacketKind::Other));
}

#[test]
fn tunnel_dns_queries_decided() {
    let engine = FilterEngine::new(FilterConfig {
        mode: Mode::Teen,
        url_rules: vec![UrlRule { name: "bad".to_string(), pattern: "bad.com".to_string(), ..Default::default() }],
        block_categories: vec![],
        ..Default::default()
    });
    let blocked = dns_query(&[b"bad", b"com"], CLIENT);
    assert!(dns_block_is_safe(&blocked));
    match tun_dns_action(&engine, &blocked) {
        TunDnsAction::Reply(r) => assert_eq!(r, build_dns_blocked_response(&blocked, &[127, 0, 0, 1]).unwrap()),
        _ => panic!("expected reply"),
    }
    assert!(matches!(tun_dns_action(&engine, &dns_query(&[b"ok", b"org"], CLIENT)), TunDnsAction::Forward));
    let mut response = dns_query(&[b"ok", b"org"], CLIENT);
    response[30] = 0x81;
    assert!(matches!(tun_dns_action(&engine, &response), TunDnsAction::Ignore));
}

#[test]
fn tunnel_state_lifecycle() {
    let mut st = TunState::new();
    assert!(!st.is_running());
    assert!(st.check_can_start().is_ok());
    assert!(matches!(st.stop(), Err(TunError::NotRunning)));
    assert!(matches!(st.update_upstream("h".to_string(), 1), Err(TunError::NotRunning)));
    assert!(!st.note_received(10));
    let status = st.mark_started(TunConfig::default());
    assert!(status.active);
    assert_eq!(status.config.as_ref().unwrap().device_name, "xnetify0");
    assert!(matches!(st.check_can_start(), Err(TunError::AlreadyRunning)));
    assert!(st.note_received(100));
    st.note_sent(u64::MAX);
    st.note_sent(2);
    let s = st.status();
    assert_eq!(s.bytes_in, 100);
    assert_eq!(s.bytes_out, 1);
    assert!(st.update_upstream("proxy.local".to_string(), 7891).is_ok());
    let c = st.status().config.unwrap();
    assert_eq!((c.upstream_host.as_str(), c.upstream_port), ("proxy.local", 7891));
    assert_eq!(c.tunnel_ip, "10.0.0.2");
    let key = match st.on_segment_at(&segment(0x02, 1, &[]), 3) {
        TcpAction::SynAck { key, server_seq, client_ack, .. } => {
            st.register_conn(key, server_seq, client_ack);
            key
        }
        _ => panic!(),
    };
    assert_eq!(st.client_ack(key), Some(2));
    assert!(st.relay_ready(key).is_some());
    assert!(st.stop().is_ok());
    assert!(!st.is_running());
    assert_eq!(st.bytes_in(), 0);
    assert_eq!(st.client_ack(key), None);
    assert!(matches!(st.stop(), Err(TunError::NotRunning)));
    assert!(matches!(st.on_segment(&segment(0x04, 1, &[])), TcpAction::Ignore));
    assert!(!st.remove_conn(key));
}

#[test]
fn tunnel_responses_from_outcomes() {
    let ok: TunResponse<u8> = TunResponse::from_result(Ok(3));
    assert!(ok.success && ok.data == Some(3) && ok.error.is_none());
    let err: TunResponse<u8> = TunResponse::from_result(Err(TunError::NotRunning));
    assert!(!err.success && err.data.is_none());
    assert_eq!(err.error.as_deref(), Some("TUN 设备未运行"));
    let c = TunConfig::for_upstream("127.0.0.1".to_string(), 7891);
    assert_eq!(c.device_name, "");
    assert_eq!(c.tunnel_ip, "10.0.0.2");
    assert_eq!((c.upstream_host.as_str(), c.upstream_port), ("127.0.0.1", 7891));
    assert_eq!(c.physical_ip, "");
}
