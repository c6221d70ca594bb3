//! The transparent tunnel: its configuration and running state, the table
//! of TCP connections it terminates, the decisions it takes on each packet
//! read from the virtual interface, and the packets it writes back.
use vstd::prelude::*;
use std::collections::HashMap;
use crate::engine::{access_check_safe, access_verdict, FilterEngine};
use crate::models::{clock_valid, local_now, LocalClock, opt_view};
use crate::nat_table::{be16_at, be32_at, parsed_octets, read_be16, read_be32, tcp_header_at};
use crate::packet::{
    build_dns_blocked_response, build_tcp_packet, build_tcp_packet_with_options, copy_range,
    dns_block_reply, dns_block_safe, dns_check_safe, ihl_bytes, ihl_of, is_dns, is_dns_packet,
    tcp_packet,
};
use crate::sni_filter::{dns_query_domain, DnsParser};
use crate::text::{chars_split, chars_views, parse_unsigned_chars, push_str, split_char, str_to_chars, string_of};

verus! {

broadcast use {vstd::std_specs::hash::group_hash_axioms, vstd::string::group_string_axioms};

// ---------------------------------------------------------------------------
// Configuration, status, errors
// ---------------------------------------------------------------------------

#[derive(Debug, Clone)]
pub struct TunConfig {
    pub device_name: String,
    pub tunnel_ip: String,
    pub tunnel_netmask: String,
    pub dns_server: String,
    pub mtu: u16,
    pub upstream_host: String,
    pub upstream_port: u16,
    pub physical_ip: String,
}

/// The text of a configuration, field by field.
pub open spec fn config_view(c: TunConfig) -> (
    Seq<char>,
    Seq<char>,
    Seq<char>,
    Seq<char>,
    u16,
    Seq<char>,
    u16,
    Seq<char>,
) {
    (
        c.device_name@,
        c.tunnel_ip@,
        c.tunnel_netmask@,
        c.dns_server@,
        c.mtu,
        c.upstream_host@,
        c.upstream_port,
        c.physical_ip@,
    )
}

pub open spec fn opt_config_view(c: Option<TunConfig>) -> Option<
    (Seq<char>, Seq<char>, Seq<char>, Seq<char>, u16, Seq<char>, u16, Seq<char>),
> {
    match c {
        Some(x) => Some(config_view(x)),
        None => None,
    }
}

impl Default for TunConfig {
    fn default() -> (r: Self)
        ensures
            config_view(r) == (
                "xnetify0"@,
                "10.0.0.2"@,
                "255.255.255.0"@,
                "8.8.8.8"@,
                1500u16,
                "127.0.0.1"@,
                1080u16,
                Seq::<char>::empty(),
            ),
    {
        TunConfig {
            device_name: string_of("xnetify0"),
            tunnel_ip: string_of("10.0.0.2"),
            tunnel_netmask: string_of("255.255.255.0"),
            dns_server: string_of("8.8.8.8"),
            mtu: 1500,
            upstream_host: string_of("127.0.0.1"),
            upstream_port: 1080,
            physical_ip: String::new(),
        }
    }
}

impl TunConfig {
    /// The configuration a start request uses: the default addresses, with
    /// the given upstream proxy; the device name and the physical address
    /// are filled in when the device is up.
    pub fn for_upstream(host: String, port: u16) -> (r: TunConfig)
        ensures
            config_view(r) == (
                Seq::<char>::empty(),
                "10.0.0.2"@,
                "255.255.255.0"@,
                "8.8.8.8"@,
                1500u16,
                host@,
                port,
                Seq::<char>::empty(),
            ),
    {
        TunConfig {
            device_name: String::new(),
            tunnel_ip: string_of("10.0.0.2"),
            tunnel_netmask: string_of("255.255.255.0"),
            dns_server: string_of("8.8.8.8"),
            mtu: 1500,
            upstream_host: host,
            upstream_port: port,
            physical_ip: String::new(),
        }
    }

    /// A field-by-field copy.
    pub fn duplicate(&self) -> (r: TunConfig)
        ensures
            config_view(r) == config_view(*self),
    {
        TunConfig {
            device_name: self.device_name.clone(),
            tunnel_ip: self.tunnel_ip.clone(),
            tunnel_netmask: self.tunnel_netmask.clone(),
            dns_server: self.dns_server.clone(),
            mtu: self.mtu,
            upstream_host: self.upstream_host.clone(),
            upstream_port: self.upstream_port,
            physical_ip: self.physical_ip.clone(),
        }
    }
}

fn duplicate_opt(c: &Option<TunConfig>) -> (r: Option<TunConfig>)
    ensures
        opt_config_view(r) == opt_config_view(*c),
{
    match c {
        Some(x) => Some(x.duplicate()),
        None => None,
    }
}

#[derive(Debug, Clone)]
pub struct TunStatus {
    pub active: bool,
    pub config: Option<TunConfig>,
    pub bytes_in: u64,
    pub bytes_out: u64,
    pub error: Option<String>,
}

impl Default for TunStatus {
    fn default() -> (r: Self)
        ensures
            !r.active,
            r.config is None,
            r.bytes_in == 0,
            r.bytes_out == 0,
            r.error is None,
    {
        TunStatus { active: false, config: None, bytes_in: 0, bytes_out: 0, error: None }
    }
}

#[derive(Debug)]
pub enum TunError {
    DeviceCreationFailed(String),
    PermissionDenied,
    AlreadyRunning,
    NotRunning,
    NetworkConfigFailed(String),
    UpstreamConnectionFailed(String),
    InvalidConfig(String),
    IoError(String),
}

/// The message shown for an error.
pub open spec fn tun_error_text(e: TunError) -> Seq<char> {
    match e {
        TunError::DeviceCreationFailed(m) => "创建设备失败: "@ + m@,
        TunError::PermissionDenied => "需要管理员/root 权限"@,
        TunError::AlreadyRunning => "TUN 设备已在运行"@,
        TunError::NotRunning => "TUN 设备未运行"@,
        TunError::NetworkConfigFailed(m) => "网络配置失败: "@ + m@,
        TunError::UpstreamConnectionFailed(m) => "上游连接失败: "@ + m@,
        TunError::InvalidConfig(m) => "无效配置: "@ + m@,
        TunError::IoError(m) => "IO 错误: "@ + m@,
    }
}

fn prefixed(prefix: &str, m: &String) -> (r: String)
    ensures
        r@ == prefix@ + m@,
{
    let mut s = string_of(prefix);
    push_str(&mut s, m.as_str());
    s
}

impl TunError {
    /// The message shown for this error.
    pub fn message(&self) -> (r: String)
        ensures
            r@ == tun_error_text(*self),
    {
        match self {
            TunError::DeviceCreationFailed(m) => prefixed("创建设备失败: ", m),
            TunError::PermissionDenied => string_of("需要管理员/root 权限"),
            TunError::AlreadyRunning => string_of("TUN 设备已在运行"),
            TunError::NotRunning => string_of("TUN 设备未运行"),
            TunError::NetworkConfigFailed(m) => prefixed("网络配置失败: ", m),
            TunError::UpstreamConnectionFailed(m) => prefixed("上游连接失败: ", m),
            TunError::InvalidConfig(m) => prefixed("无效配置: ", m),
            TunError::IoError(m) => prefixed("IO 错误: ", m),
        }
    }
}

/// The answer to a stop request that succeeded.
pub const TUN_STOPPED: &'static str = "TUN 已停止";

/// The answer to an upstream change that succeeded.
pub const UPSTREAM_UPDATED: &'static str = "上游已更新";

/// The answer the tunnel commands give: data on success, a message on
/// failure.
pub struct TunResponse<T> {
    pub success: bool,
    pub data: Option<T>,
    pub error: Option<String>,
}

impl<T> TunResponse<T> {
    pub fn ok(data: T) -> (r: Self)
        ensures
            r.success,
            r.data == Some(data),
            r.error is None,
    {
        TunResponse { success: true, data: Some(data), error: None }
    }

    pub fn err(error: String) -> (r: Self)
        ensures
            !r.success,
            r.data is None,
            r.error == Some(error),
    {
        TunResponse { success: false, data: None, error: Some(error) }
    }

    /// The answer for a tunnel operation's outcome: its data, or its
    /// error's message.
    pub fn from_result(result: Result<T, TunError>) -> (r: Self)
        ensures
            match result {
                Ok(d) => r.success && r.data == Some(d) && r.error is None,
                Err(e) => !r.success && r.data is None && (r.error matches Some(m) && m@
                    == tun_error_text(e)),
            },
    {
        match result {
            Ok(d) => TunResponse::ok(d),
            Err(e) => TunResponse::err(e.message()),
        }
    }
}

// ---------------------------------------------------------------------------
// TCP connections terminated by the tunnel
// ---------------------------------------------------------------------------

/// One connection: the sequence number the tunnel started its side with,
/// the last acknowledgement number owed to the client, whether the relay
/// to the far end is up, and the client's data held until it is.
pub struct TcpConn {
    pub server_seq: u32,
    pub client_ack: u32,
    pub relay_ready: bool,
    pub pending: Vec<Vec<u8>>,
}

pub open spec fn byte_seqs(v: Seq<Vec<u8>>) -> Seq<Seq<u8>> {
    v.map_values(|x: Vec<u8>| x@)
}

pub type ConnView = (u32, u32, bool, Seq<Seq<u8>>);

pub open spec fn conn_view(c: TcpConn) -> ConnView {
    (c.server_seq, c.client_ack, c.relay_ready, byte_seqs(c.pending@))
}

/// The connections, keyed by (client address, client port, server address,
/// server port).
pub struct TcpConnTable {
    conns: HashMap<u128, TcpConn>,
}

/// The key of a connection: the four endpoint values packed into 96 bits.
pub open spec fn conn_key(src_ip: u32, src_port: u16, dst_ip: u32, dst_port: u16) -> u128 {
    (src_ip * 0x1_0000_0000_0000_0000 + src_port * 0x1_0000_0000_0000 + dst_ip * 0x1_0000
        + dst_port) as u128
}

/// The key of the connection between these endpoints.
pub fn make_conn_key(src_ip: u32, src_port: u16, dst_ip: u32, dst_port: u16) -> (r: u128)
    ensures
        r == conn_key(src_ip, src_port, dst_ip, dst_port),
{
    (src_ip as u128) * 0x1_0000_0000_0000_0000u128 + (src_port as u128) * 0x1_0000_0000_0000u128
        + (dst_ip as u128) * 0x1_0000u128 + (dst_port as u128)
}

impl TcpConnTable {
    pub closed spec fn view(&self) -> Map<u128, ConnView> {
        Map::new(|k: u128| self.conns@.contains_key(k), |k: u128| conn_view(self.conns@[k]))
    }

    pub fn new() -> (r: Self)
        ensures
            r.view() == Map::<u128, ConnView>::empty(),
    {
        let r = TcpConnTable { conns: HashMap::new() };
        assert(r.view() =~= Map::<u128, ConnView>::empty());
        r
    }

    pub fn contains(&self, key: u128) -> (r: bool)
        ensures
            r == self.view().contains_key(key),
    {
        self.conns.contains_key(&key)
    }

    /// Records a connection whose relay is not up yet, with nothing held.
    pub fn register(&mut self, key: u128, server_seq: u32, client_ack: u32)
        ensures
            final(self).view() == old(self).view().insert(
                key,
                (server_seq, client_ack, false, Seq::<Seq<u8>>::empty()),
            ),
    {
        let c = TcpConn { server_seq, client_ack, relay_ready: false, pending: Vec::new() };
        assert(byte_seqs(c.pending@) =~= Seq::<Seq<u8>>::empty());
        self.conns.insert(key, c);
        assert(self.view() =~= old(self).view().insert(
            key,
            (server_seq, client_ack, false, Seq::<Seq<u8>>::empty()),
        ));
    }

    /// Marks the relay of a connection as up and hands out the data held
    /// for it, in the order it came; `None` when the connection is gone.
    pub fn mark_ready(&mut self, key: u128) -> (r: Option<Vec<Vec<u8>>>)
        ensures
            match old(self).view().get(key) {
                Some(c) => {
                    &&& r matches Some(v) && byte_seqs(v@) == c.3
                    &&& final(self).view() == old(self).view().insert(
                        key,
                        (c.0, c.1, true, Seq::<Seq<u8>>::empty()),
                    )
                },
                None => r is None && final(self).view() == old(self).view(),
            },
    {
        match self.conns.remove(&key) {
            Some(c) => {
                let pending = c.pending;
                let updated = TcpConn {
                    server_seq: c.server_seq,
                    client_ack: c.client_ack,
                    relay_ready: true,
                    pending: Vec::new(),
                };
                assert(byte_seqs(updated.pending@) =~= Seq::<Seq<u8>>::empty());
                self.conns.insert(key, updated);
                assert(self.view() =~= old(self).view().insert(
                    key,
                    (c.server_seq, c.client_ack, true, Seq::<Seq<u8>>::empty()),
                ));
                Some(pending)
            },
            None => {
                assert(self.view() =~= old(self).view());
                None
            },
        }
    }

    /// Drops a connection; `true` when there was one.
    pub fn remove(&mut self, key: u128) -> (r: bool)
        ensures
            r == old(self).view().contains_key(key),
            final(self).view() == old(self).view().remove(key),
    {
        let r = self.conns.remove(&key);
        assert(self.view() =~= old(self).view().remove(key));
        r.is_some()
    }

    /// The acknowledgement number owed to the client of a connection.
    pub fn client_ack(&self, key: u128) -> (r: Option<u32>)
        ensures
            match self.view().get(key) {
                Some(c) => r == Some(c.1),
                None => r is None,
            },
    {
        match self.conns.get(&key) {
            Some(c) => Some(c.client_ack),
            None => None,
        }
    }

    /// Drops every connection.
    pub fn clear(&mut self)
        ensures
            final(self).view() == Map::<u128, ConnView>::empty(),
    {
        self.conns = HashMap::new();
        assert(self.view() =~= Map::<u128, ConnView>::empty());
    }
}

// ---------------------------------------------------------------------------
// Decisions on TCP segments from the client
// ---------------------------------------------------------------------------

/// What the tunnel does with a TCP segment from the client.
pub enum TcpAction {
    /// Nothing.
    Ignore,
    /// Send `reply` (SYN+ACK); once it is sent, register the connection
    /// with these numbers and start the relay.
    SynAck { key: u128, reply: Vec<u8>, server_seq: u32, client_ack: u32 },
    /// The connection was dropped: send `reply` (FIN+ACK) and, when its
    /// relay was up, tell the relay to close.
    Fin { reply: Vec<u8>, signal_relay: bool },
    /// The data was held for a relay not up yet: send `reply` (ACK).
    Buffered { reply: Vec<u8> },
    /// Send `reply` (ACK), then pass `data` to the relay of `key` (and
    /// drop the connection if that fails).
    Forward { key: u128, reply: Vec<u8>, data: Vec<u8> },
    /// Data for an unknown connection: send `reply` (RST+ACK).
    Reset { reply: Vec<u8> },
    /// An acknowledgement was noted; nothing is sent.
    AckNoted,
    /// The segment's headers run past its end.
    Fault,
}

pub enum TcpStep {
    Ignore,
    SynAck(u128, Seq<u8>, u32, u32),
    Fin(Seq<u8>, bool),
    Buffered(Seq<u8>),
    Forward(u128, Seq<u8>, Seq<u8>),
    Reset(Seq<u8>),
    AckNoted,
    Fault,
}

pub open spec fn tcp_action_view(a: TcpAction) -> TcpStep {
    match a {
        TcpAction::Ignore => TcpStep::Ignore,
        TcpAction::SynAck { key, reply, server_seq, client_ack } => TcpStep::SynAck(
            key,
            reply@,
            server_seq,
            client_ack,
        ),
        TcpAction::Fin { reply, signal_relay } => TcpStep::Fin(reply@, signal_relay),
        TcpAction::Buffered { reply } => TcpStep::Buffered(reply@),
        TcpAction::Forward { key, reply, data } => TcpStep::Forward(key, reply@, data@),
        TcpAction::Reset { reply } => TcpStep::Reset(reply@),
        TcpAction::AckNoted => TcpStep::AckNoted,
        TcpAction::Fault => TcpStep::Fault,
    }
}

/// The bit of `b` worth `d` (a power of two).
pub open spec fn bit(b: u8, d: nat) -> bool {
    ((b as nat) / d) % 2 == 1
}

/// The TCP header length of the segment in `p`, never below 20.
pub open spec fn tcp_hl(p: Seq<u8>) -> int {
    let d = (p[ihl_bytes(p) + 12] / 16) * 4;
    if d < 20 {
        20
    } else {
        d
    }
}

pub open spec fn seg_flags(p: Seq<u8>) -> u8 {
    p[ihl_bytes(p) + 13]
}

pub open spec fn src_addr(p: Seq<u8>) -> Seq<u8> {
    p.subrange(12, 16)
}

pub open spec fn dst_addr(p: Seq<u8>) -> Seq<u8> {
    p.subrange(16, 20)
}

pub open spec fn seg_src_port(p: Seq<u8>) -> u16 {
    be16_at(p, ihl_bytes(p))
}

pub open spec fn seg_dst_port(p: Seq<u8>) -> u16 {
    be16_at(p, ihl_bytes(p) + 2)
}

pub open spec fn seg_seq(p: Seq<u8>) -> u32 {
    be32_at(p, ihl_bytes(p) + 4)
}

pub open spec fn seg_key(p: Seq<u8>) -> u128 {
    conn_key(be32_at(p, 12), seg_src_port(p), be32_at(p, 16), seg_dst_port(p))
}

/// Segments for the tunnel's own services or addresses, which it leaves
/// alone.
pub open spec fn local_target(p: Seq<u8>) -> bool {
    let dst = dst_addr(p);
    let port = seg_dst_port(p);
    (dst == seq![127u8, 0u8, 0u8, 1u8] && (port == 7890 || port == 7891 || port == 8888)) || dst
        == seq![10u8, 0u8, 0u8, 2u8] || dst == seq![10u8, 0u8, 0u8, 1u8]
}

/// The TCP options the client sent with its SYN.
pub open spec fn syn_options(p: Seq<u8>) -> Seq<u8> {
    if tcp_hl(p) > 20 {
        p.subrange(ihl_bytes(p) + 20, ihl_bytes(p) + tcp_hl(p))
    } else {
        Seq::empty()
    }
}

/// A segment back to the client from the server it addressed.
pub open spec fn reply_to(p: Seq<u8>, seq: u32, ack: u32, flags: u8, options: Seq<u8>) -> Seq<u8> {
    tcp_packet(
        dst_addr(p),
        seg_dst_port(p),
        src_addr(p),
        seg_src_port(p),
        seq,
        ack,
        flags,
        Seq::empty(),
        options,
    )
}

pub open spec fn step_syn(t: Map<u128, ConnView>, p: Seq<u8>, server_seq: u32) -> (
    TcpStep,
    Map<u128, ConnView>,
) {
    let key = seg_key(p);
    let seq = seg_seq(p);
    if t.contains_key(key) {
        (TcpStep::Ignore, t)
    } else if tcp_hl(p) > 20 && ihl_bytes(p) + tcp_hl(p) > p.len() {
        (TcpStep::Fault, t)
    } else {
        (
            TcpStep::SynAck(
                key,
                reply_to(p, server_seq, seq.wrapping_add(1), 0x12, syn_options(p)),
                server_seq,
                seq.wrapping_add(1),
            ),
            t,
        )
    }
}

pub open spec fn step_fin(t: Map<u128, ConnView>, p: Seq<u8>) -> (TcpStep, Map<u128, ConnView>) {
    let key = seg_key(p);
    match t.get(key) {
        Some(c) => (TcpStep::Fin(reply_to(p, c.0, c.1, 0x11, Seq::empty()), c.2), t.remove(key)),
        None => (TcpStep::Ignore, t),
    }
}

pub open spec fn step_data(t: Map<u128, ConnView>, p: Seq<u8>) -> (TcpStep, Map<u128, ConnView>) {
    let key = seg_key(p);
    let data = p.skip(ihl_bytes(p) + tcp_hl(p));
    let new_ack = seg_seq(p).wrapping_add(
        ((p.len() - ihl_bytes(p) - tcp_hl(p)) % 0x1_0000_0000) as u32,
    );
    match t.get(key) {
        Some(c) => if !c.2 {
            (
                TcpStep::Buffered(reply_to(p, c.0, new_ack, 0x10, Seq::empty())),
                t.insert(key, (c.0, new_ack, false, c.3.push(data))),
            )
        } else {
            (
                TcpStep::Forward(key, reply_to(p, c.0, new_ack, 0x10, Seq::empty()), data),
                t.insert(key, (c.0, new_ack, true, c.3)),
            )
        },
        None => (TcpStep::Reset(reply_to(p, 0, new_ack, 0x14, Seq::empty())), t),
    }
}

pub open spec fn step_ack(t: Map<u128, ConnView>, p: Seq<u8>) -> (TcpStep, Map<u128, ConnView>) {
    let key = seg_key(p);
    match t.get(key) {
        Some(c) => (TcpStep::AckNoted, t.insert(key, (c.0, seg_seq(p), c.2, c.3))),
        None => (TcpStep::Ignore, t),
    }
}

/// What the tunnel does with the client segment `p` when its connections
/// are `t` and a fresh initial sequence number would be `server_seq`, and
/// what its connections become. RST segments are ignored; a SYN opens a
/// connection; a FIN closes one; data is acknowledged and held or passed
/// on; a bare ACK only updates the acknowledgement number, so that ACKs
/// never answer ACKs.
pub open spec fn tcp_step(t: Map<u128, ConnView>, p: Seq<u8>, server_seq: u32) -> (
    TcpStep,
    Map<u128, ConnView>,
) {
    if p.len() < 40 {
        (TcpStep::Ignore, t)
    } else if ihl_bytes(p) + 14 > p.len() {
        (TcpStep::Fault, t)
    } else if local_target(p) {
        (TcpStep::Ignore, t)
    } else {
        let f = seg_flags(p);
        if bit(f, 4) {
            (TcpStep::Ignore, t)
        } else if bit(f, 2) && !bit(f, 16) {
            step_syn(t, p, server_seq)
        } else if bit(f, 1) {
            step_fin(t, p)
        } else if p.len() > ihl_bytes(p) + tcp_hl(p) {
            step_data(t, p)
        } else if bit(f, 16) && !bit(f, 2) && !bit(f, 1) {
            step_ack(t, p)
        } else {
            (TcpStep::Ignore, t)
        }
    }
}

/// The header fields of a client segment that the decisions read.
struct SegInfo {
    ihl: usize,
    thl: usize,
    flags: u8,
    src: [u8; 4],
    dst: [u8; 4],
    src_port: u16,
    dst_port: u16,
    seq: u32,
    key: u128,
}

spec fn seg_info_of(i: SegInfo, p: Seq<u8>) -> bool {
    &&& i.ihl == ihl_bytes(p)
    &&& i.thl == tcp_hl(p)
    &&& i.flags == seg_flags(p)
    &&& i.src@ == src_addr(p)
    &&& i.dst@ == dst_addr(p)
    &&& i.src_port == seg_src_port(p)
    &&& i.dst_port == seg_dst_port(p)
    &&& i.seq == seg_seq(p)
    &&& i.key == seg_key(p)
    &&& i.ihl <= 60
    &&& i.thl <= 60
}

fn flag_bits(f: u8) -> (r: (bool, bool, bool, bool))
    ensures
        r.0 == bit(f, 1),
        r.1 == bit(f, 2),
        r.2 == bit(f, 4),
        r.3 == bit(f, 16),
{
    let b0 = (f & 0x01u8) != 0;
    let b1 = (f & 0x02u8) != 0;
    let b2 = (f & 0x04u8) != 0;
    let b4 = (f & 0x10u8) != 0;
    assert(b0 == ((f / 1) % 2 == 1) && b1 == ((f / 2) % 2 == 1) && b2 == ((f / 4) % 2 == 1) && b4
        == ((f / 16) % 2 == 1)) by (bit_vector)
        requires
            b0 == ((f & 0x01u8) != 0),
            b1 == ((f & 0x02u8) != 0),
            b2 == ((f & 0x04u8) != 0),
            b4 == ((f & 0x10u8) != 0),
    ;
    (b0, b1, b2, b4)
}

fn addr4(p: &[u8], at: usize) -> (r: [u8; 4])
    requires
        at + 4 <= p@.len(),
    ensures
        r@ == p@.subrange(at as int, at + 4),
{
    let r = [p[at], p[at + 1], p[at + 2], p[at + 3]];
    assert(r@ =~= p@.subrange(at as int, at + 4));
    r
}

fn is_addr(a: &[u8; 4], b0: u8, b1: u8, b2: u8, b3: u8) -> (r: bool)
    ensures
        r == (a@ == seq![b0, b1, b2, b3]),
{
    let r = a[0] == b0 && a[1] == b1 && a[2] == b2 && a[3] == b3;
    if r {
        assert(a@ =~= seq![b0, b1, b2, b3]);
    } else {
        assert(a@ != seq![b0, b1, b2, b3] || a@ =~= seq![b0, b1, b2, b3]);
    }
    r
}

fn parse_segment(packet: &[u8]) -> (r: SegInfo)
    requires
        packet@.len() >= 40,
        ihl_bytes(packet@) + 14 <= packet@.len(),
    ensures
        seg_info_of(r, packet@),
{
    let ihl = ihl_of(packet);
    let b12 = packet[ihl + 12];
    let hi = b12 >> 4u8;
    assert(hi == b12 / 16) by (bit_vector)
        requires
            hi == b12 >> 4u8,
    ;
    let d = (hi as usize) * 4;
    let thl: usize = if d < 20 {
        20
    } else {
        d
    };
    let flags = packet[ihl + 13];
    let src = addr4(packet, 12);
    let dst = addr4(packet, 16);
    let src_port = read_be16(packet, ihl);
    let dst_port = read_be16(packet, ihl + 2);
    let seq = read_be32(packet, ihl + 4);
    let key = make_conn_key(read_be32(packet, 12), src_port, read_be32(packet, 16), dst_port);
    SegInfo { ihl, thl, flags, src, dst, src_port, dst_port, seq, key }
}

fn reply_packet(info: &SegInfo, seq: u32, ack: u32, flags: u8, options: &[u8]) -> (r: Vec<u8>)
    requires
        options@.len() <= 40,
    ensures
        forall|p: Seq<u8>|
            seg_info_of(*info, p) ==> r@ == #[trigger] reply_to(p, seq, ack, flags, options@),
{
    let none: Vec<u8> = Vec::new();
    assert(none@ =~= Seq::<u8>::empty());
    build_tcp_packet_with_options(
        &info.dst,
        info.dst_port,
        &info.src,
        info.src_port,
        seq,
        ack,
        flags,
        none.as_slice(),
        options,
    )
}

impl TcpConnTable {
    fn syn_action(&self, packet: &[u8], info: &SegInfo, server_seq: u32) -> (r: TcpAction)
        requires
            seg_info_of(*info, packet@),
            packet@.len() >= 40,
        ensures
            tcp_action_view(r) == step_syn(self.view(), packet@, server_seq).0,
    {
        if self.conns.contains_key(&info.key) {
            return TcpAction::Ignore;
        }
        let len = packet.len();
        if info.thl > 20 && info.ihl + info.thl > len {
            return TcpAction::Fault;
        }
        let options: Vec<u8> = if info.thl > 20 {
            copy_range(packet, info.ihl + 20, info.ihl + info.thl)
        } else {
            Vec::new()
        };
        assert(options@ =~= syn_options(packet@));
        let client_ack = info.seq.wrapping_add(1);
        let reply = reply_packet(info, server_seq, client_ack, 0x12, options.as_slice());
        TcpAction::SynAck { key: info.key, reply, server_seq, client_ack }
    }

    fn fin_action(&mut self, packet: &[u8], info: &SegInfo) -> (r: TcpAction)
        requires
            seg_info_of(*info, packet@),
        ensures
            tcp_action_view(r) == step_fin(old(self).view(), packet@).0,
            final(self).view() == step_fin(old(self).view(), packet@).1,
    {
        let ghost t = self.view();
        let none: Vec<u8> = Vec::new();
        match self.conns.remove(&info.key) {
            Some(c) => {
                let reply = reply_packet(info, c.server_seq, c.client_ack, 0x11, none.as_slice());
                assert(none@ =~= Seq::<u8>::empty());
                assert(self.view() =~= t.remove(info.key));
                TcpAction::Fin { reply, signal_relay: c.relay_ready }
            },
            None => TcpAction::Ignore,
        }
    }

    fn data_action(&mut self, packet: &[u8], info: &SegInfo) -> (r: TcpAction)
        requires
            seg_info_of(*info, packet@),
            packet@.len() > info.ihl + info.thl,
        ensures
            tcp_action_view(r) == step_data(old(self).view(), packet@).0,
            final(self).view() == step_data(old(self).view(), packet@).1,
    {
        let ghost t = self.view();
        let len = packet.len();
        let data = copy_range(packet, info.ihl + info.thl, len);
        assert(data@ =~= packet@.skip(info.ihl + info.thl));
        let payload_len = len - info.ihl - info.thl;
        let n = ((payload_len as u64) % 0x1_0000_0000u64) as u32;
        let new_ack = info.seq.wrapping_add(n);
        let none: Vec<u8> = Vec::new();
        assert(none@ =~= Seq::<u8>::empty());
        match self.conns.remove(&info.key) {
            Some(c) => {
                let reply = reply_packet(info, c.server_seq, new_ack, 0x10, none.as_slice());
                if !c.relay_ready {
                    let mut pending = c.pending;
                    let ghost before = pending@;
                    pending.push(data);
                    assert(byte_seqs(pending@) =~= byte_seqs(before).push(data@));
                    let updated = TcpConn {
                        server_seq: c.server_seq,
                        client_ack: new_ack,
                        relay_ready: false,
                        pending,
                    };
                    self.conns.insert(info.key, updated);
                    assert(self.view() =~= t.insert(
                        info.key,
                        (c.server_seq, new_ack, false, byte_seqs(before).push(data@)),
                    ));
                    TcpAction::Buffered { reply }
                } else {
                    let updated = TcpConn {
                        server_seq: c.server_seq,
                        client_ack: new_ack,
                        relay_ready: true,
                        pending: c.pending,
                    };
                    self.conns.insert(info.key, updated);
                    assert(self.view() =~= t.insert(
                        info.key,
                        (c.server_seq, new_ack, true, t[info.key].3),
                    ));
                    TcpAction::Forward { key: info.key, reply, data }
                }
            },
            None => {
                let reply = reply_packet(info, 0, new_ack, 0x14, none.as_slice());
                TcpAction::Reset { reply }
            },
        }
    }

    fn ack_action(&mut self, packet: &[u8], info: &SegInfo) -> (r: TcpAction)
        requires
            seg_info_of(*info, packet@),
        ensures
            tcp_action_view(r) == step_ack(old(self).view(), packet@).0,
            final(self).view() == step_ack(old(self).view(), packet@).1,
    {
        let ghost t = self.view();
        match self.conns.remove(&info.key) {
            Some(c) => {
                let updated = TcpConn {
                    server_seq: c.server_seq,
                    client_ack: info.seq,
                    relay_ready: c.relay_ready,
                    pending: c.pending,
                };
                self.conns.insert(info.key, updated);
                assert(self.view() =~= t.insert(
                    info.key,
                    (t[info.key].0, info.seq, t[info.key].2, t[info.key].3),
                ));
                TcpAction::AckNoted
            },
            None => TcpAction::Ignore,
        }
    }

    /// Takes the decision for a client segment read from the tunnel, with
    /// `server_seq` as the initial sequence number of a new connection.
    pub fn on_segment_at(&mut self, packet: &[u8], server_seq: u32) -> (r: TcpAction)
        ensures
            tcp_action_view(r) == tcp_step(old(self).view(), packet@, server_seq).0,
            final(self).view() == tcp_step(old(self).view(), packet@, server_seq).1,
    {
        let len = packet.len();
        if len < 40 {
            return TcpAction::Ignore;
        }
        let ihl = ihl_of(packet);
        if ihl + 14 > len {
            return TcpAction::Fault;
        }
        let info = parse_segment(packet);
        let dst_local = is_addr(&info.dst, 127, 0, 0, 1);
        let port = info.dst_port;
        if (dst_local && (port == 7890 || port == 7891 || port == 8888)) || is_addr(
            &info.dst,
            10,
            0,
            0,
            2,
        ) || is_addr(&info.dst, 10, 0, 0, 1) {
            return TcpAction::Ignore;
        }
        let (b0, b1, b2, b4) = flag_bits(info.flags);
        if b2 {
            TcpAction::Ignore
        } else if b1 && !b4 {
            self.syn_action(packet, &info, server_seq)
        } else if b0 {
            self.fin_action(packet, &info)
        } else if len > info.ihl + info.thl {
            self.data_action(packet, &info)
        } else if b4 && !b1 && !b0 {
            self.ack_action(packet, &info)
        } else {
            TcpAction::Ignore
        }
    }

}

// ---------------------------------------------------------------------------
// Writing back to the client
// ---------------------------------------------------------------------------

/// The server side of a relayed connection: the segments that carry the far
/// end's data back to the client, numbered from `next_seq` on.
pub struct TcpRelay {
    pub server_ip: [u8; 4],
    pub server_port: u16,
    pub client_ip: [u8; 4],
    pub client_port: u16,
    pub next_seq: u32,
}

impl TcpRelay {
    /// The relay for a connection whose SYN+ACK used `server_seq`: its first
    /// data byte is numbered `server_seq + 1`.
    pub fn new(
        server_ip: [u8; 4],
        server_port: u16,
        client_ip: [u8; 4],
        client_port: u16,
        server_seq: u32,
    ) -> (r: Self)
        ensures
            r.server_ip == server_ip,
            r.server_port == server_port,
            r.client_ip == client_ip,
            r.client_port == client_port,
            r.next_seq == server_seq.wrapping_add(1),
    {
        TcpRelay {
            server_ip,
            server_port,
            client_ip,
            client_port,
            next_seq: server_seq.wrapping_add(1),
        }
    }

    /// The PSH+ACK segment that carries `data` to the client; the next
    /// segment is numbered after it.
    pub fn data_packet(&mut self, data: &[u8], client_ack: u32) -> (r: Vec<u8>)
        requires
            data@.len() <= 65535,
        ensures
            r@ == tcp_packet(
                old(self).server_ip@,
                old(self).server_port,
                old(self).client_ip@,
                old(self).client_port,
                old(self).next_seq,
                client_ack,
                0x18,
                data@,
                Seq::empty(),
            ),
            final(self).next_seq == old(self).next_seq.wrapping_add(
                (data@.len() % 0x1_0000_0000) as u32,
            ),
            final(self).server_ip == old(self).server_ip,
            final(self).server_port == old(self).server_port,
            final(self).client_ip == old(self).client_ip,
            final(self).client_port == old(self).client_port,
    {
        let r = build_tcp_packet(
            &self.server_ip,
            self.server_port,
            &self.client_ip,
            self.client_port,
            self.next_seq,
            client_ack,
            0x18,
            data,
        );
        let n = ((data.len() as u64) % 0x1_0000_0000u64) as u32;
        self.next_seq = self.next_seq.wrapping_add(n);
        r
    }

    /// The FIN+ACK segment that tells the client the far end closed.
    pub fn fin_packet(&self, client_ack: u32) -> (r: Vec<u8>)
        ensures
            r@ == tcp_packet(
                self.server_ip@,
                self.server_port,
                self.client_ip@,
                self.client_port,
                self.next_seq,
                client_ack,
                0x11,
                Seq::empty(),
                Seq::empty(),
            ),
    {
        let none: Vec<u8> = Vec::new();
        assert(none@ =~= Seq::<u8>::empty());
        build_tcp_packet(
            &self.server_ip,
            self.server_port,
            &self.client_ip,
            self.client_port,
            self.next_seq,
            client_ack,
            0x11,
            none.as_slice(),
        )
    }
}

/// The four octets of a dotted address, or four zeros when it does not
/// have exactly four parts that read as bytes.
pub open spec fn addr_or_zero(ip: Seq<char>) -> Seq<u8> {
    let o = parsed_octets(split_char(ip, '.'));
    if o.len() == 4 {
        o
    } else {
        seq![0u8, 0u8, 0u8, 0u8]
    }
}

fn octets_or_zero(ip: &str) -> (r: [u8; 4])
    ensures
        r@ == addr_or_zero(ip@),
{
    let chars = str_to_chars(ip);
    let parts = chars_split(chars.as_slice(), '.');
    let ghost views = chars_views(parts@);
    let mut octets: Vec<u8> = Vec::new();
    let mut i: usize = 0;
    while i < parts.len()
        invariant
            i <= parts@.len(),
            views == chars_views(parts@),
            views == split_char(ip@, '.'),
            octets@ == parsed_octets(views.take(i as int)),
        decreases parts@.len() - i,
    {
        let parsed = parse_unsigned_chars(parts[i].as_slice(), 255);
        proof {
            assert(views.take(i + 1).drop_last() =~= views.take(i as int));
        }
        match parsed {
            Some(v) => {
                octets.push(v as u8);
            },
            None => {},
        }
        i = i + 1;
    }
    assert(views.take(parts@.len() as int) =~= views);
    if octets.len() == 4 {
        let r = [octets[0], octets[1], octets[2], octets[3]];
        assert(r@ =~= octets@);
        r
    } else {
        let r = [0u8, 0u8, 0u8, 0u8];
        assert(r@ =~= seq![0u8, 0u8, 0u8, 0u8]);
        r
    }
}

/// The RST+ACK segment sent to the client when its connection cannot be
/// relayed, from the server it addressed; addresses given in dotted form.
pub fn rst_packet(
    dst_ip: &str,
    dst_port: u16,
    src_ip: &str,
    src_port: u16,
    seq: u32,
    ack_seq: u32,
) -> (r: Vec<u8>)
    ensures
        r@ == tcp_packet(
            addr_or_zero(dst_ip@),
            dst_port,
            addr_or_zero(src_ip@),
            src_port,
            seq,
            ack_seq,
            0x14,
            Seq::empty(),
            Seq::empty(),
        ),
{
    let d = octets_or_zero(dst_ip);
    let s = octets_or_zero(src_ip);
    let none: Vec<u8> = Vec::new();
    assert(none@ =~= Seq::<u8>::empty());
    build_tcp_packet(&d, dst_port, &s, src_port, seq, ack_seq, 0x14, none.as_slice())
}

/// The SOCKS5 greeting offering no authentication.
pub fn socks5_client_greeting() -> (r: Vec<u8>)
    ensures
        r@ == seq![5u8, 1u8, 0u8],
{
    let mut v: Vec<u8> = Vec::new();
    v.push(5);
    v.push(1);
    v.push(0);
    assert(v@ =~= seq![5u8, 1u8, 0u8]);
    v
}

/// Whether a SOCKS5 server's answer (to the greeting or to a connect
/// request) is a success: version 5, status 0.
pub fn socks5_reply_ok(resp: &[u8]) -> (r: bool)
    requires
        resp@.len() >= 2,
    ensures
        r == (resp@[0] == 5 && resp@[1] == 0),
{
    resp[0] == 0x05 && resp[1] == 0x00
}

/// The SOCKS5 request to connect to an IPv4 address and port.
pub fn socks5_connect_ipv4(dst_ip: &[u8; 4], dst_port: u16) -> (r: Vec<u8>)
    ensures
        r@ == seq![5u8, 1u8, 0u8, 1u8] + dst_ip@ + seq![
            (dst_port / 256) as u8,
            (dst_port % 256) as u8,
        ],
{
    let mut v: Vec<u8> = Vec::new();
    v.push(5);
    v.push(1);
    v.push(0);
    v.push(1);
    v.push(dst_ip[0]);
    v.push(dst_ip[1]);
    v.push(dst_ip[2]);
    v.push(dst_ip[3]);
    v.push((dst_port / 256) as u8);
    v.push((dst_port % 256) as u8);
    assert(v@ =~= seq![5u8, 1u8, 0u8, 1u8] + dst_ip@ + seq![
        (dst_port / 256) as u8,
        (dst_port % 256) as u8,
    ]);
    v
}

// ---------------------------------------------------------------------------
// Packets read from the tunnel
// ---------------------------------------------------------------------------

pub enum TunPacketKind {
    /// Dropped before anything is counted.
    Skip,
    Dns,
    Tcp,
    Other,
    /// Telling DNS from the rest reads past the packet's end.
    Fault,
}

/// How a packet read from the tunnel is dispatched. Short and non-IPv4
/// packets are skipped, and so are TCP/UDP packets whose source is not the
/// client address 10.0.0.2: those are the tunnel's own replies routed back
/// into it.
pub open spec fn tun_packet_kind(p: Seq<u8>) -> TunPacketKind {
    if p.len() < 20 || p[0] / 16 != 4 {
        TunPacketKind::Skip
    } else if (p[9] == 6 || p[9] == 17) && p.len() >= 40 && src_addr(p) != seq![
        10u8,
        0u8,
        0u8,
        2u8,
    ] {
        TunPacketKind::Skip
    } else if !dns_check_safe(p) {
        TunPacketKind::Fault
    } else if is_dns(p) {
        TunPacketKind::Dns
    } else if p.len() >= 40 && p[9] == 6 {
        TunPacketKind::Tcp
    } else {
        TunPacketKind::Other
    }
}

/// Decides how a packet read from the tunnel is dispatched.
pub fn classify_tun_packet(packet: &[u8]) -> (r: TunPacketKind)
    ensures
        r == tun_packet_kind(packet@),
{
    let n = packet.len();
    if n < 20 {
        return TunPacketKind::Skip;
    }
    let b0 = packet[0];
    let version = b0 >> 4u8;
    assert(version == b0 / 16) by (bit_vector)
        requires
            version == b0 >> 4u8,
    ;
    if version != 4 {
        return TunPacketKind::Skip;
    }
    let protocol = packet[9];
    if (protocol == 6 || protocol == 17) && n >= 40 {
        let src = addr4(packet, 12);
        if !is_addr(&src, 10, 0, 0, 2) {
            return TunPacketKind::Skip;
        }
    }
    if n >= 28 && packet[9] == 17 {
        let ihl = ihl_of(packet);
        if ihl + 4 > n {
            return TunPacketKind::Fault;
        }
    }
    if is_dns_packet(packet) {
        TunPacketKind::Dns
    } else if n >= 40 && packet[9] == 6 {
        TunPacketKind::Tcp
    } else {
        TunPacketKind::Other
    }
}

pub enum TunDnsAction {
    /// Nothing to do.
    Ignore,
    /// Write this answer back to the client.
    Reply(Vec<u8>),
    /// Relay the query to the upstream DNS server.
    Forward,
    /// Deciding hits a rule that cannot be matched, or the answer cannot be
    /// built from the packet.
    Fault,
}

pub enum TunDnsStep {
    Ignore,
    Reply(Seq<u8>),
    Forward,
    Fault,
}

pub open spec fn tun_dns_view(a: TunDnsAction) -> TunDnsStep {
    match a {
        TunDnsAction::Ignore => TunDnsStep::Ignore,
        TunDnsAction::Reply(v) => TunDnsStep::Reply(v@),
        TunDnsAction::Forward => TunDnsStep::Forward,
        TunDnsAction::Fault => TunDnsStep::Fault,
    }
}

/// The URL that a DNS query for `domain` is checked as.
pub open spec fn dns_check_url(domain: Seq<char>) -> Seq<char> {
    "http://"@ + domain
}

/// What the tunnel does with a DNS query packet `p` under the configuration
/// `cfg`, at the clock reading `c`: a query for a refused domain is
/// answered with 127.0.0.1, an allowed one is relayed upstream.
pub open spec fn tun_dns_step(cfg: crate::models::FilterConfig, p: Seq<u8>, c: LocalClock) -> TunDnsStep {
    let start = ihl_bytes(p) + 8;
    if start > p.len() {
        TunDnsStep::Ignore
    } else {
        match dns_query_domain(p.skip(start)) {
            None => TunDnsStep::Ignore,
            Some(d) => if !access_check_safe(cfg, d, dns_check_url(d), c) {
                TunDnsStep::Fault
            } else if access_verdict(cfg, d, dns_check_url(d), c).0 {
                TunDnsStep::Forward
            } else if !dns_block_safe(p) {
                TunDnsStep::Fault
            } else if p.len() < ihl_bytes(p) + 20 {
                TunDnsStep::Ignore
            } else {
                TunDnsStep::Reply(dns_block_reply(p, seq![127u8, 0u8, 0u8, 1u8]))
            },
        }
    }
}

/// Whether the blocked-query answer can be built from `packet`.
pub fn dns_block_is_safe(packet: &[u8]) -> (r: bool)
    ensures
        r == dns_block_safe(packet@),
{
    let n = packet.len();
    if n < 1 {
        return false;
    }
    let ihl = ihl_of(packet);
    if n >= ihl + 20 {
        ihl >= 4 && n <= 131000
    } else {
        true
    }
}

/// Decides what to do with a DNS query read from the tunnel.
pub fn tun_dns_action(engine: &FilterEngine, packet: &[u8]) -> (r: TunDnsAction)
    requires
        packet@.len() >= 1,
    ensures
        exists|c: LocalClock|
            clock_valid(c) && tun_dns_view(r) == #[trigger] tun_dns_step(
                engine.spec_config(),
                packet@,
                c,
            ),
{
    let ihl = ihl_of(packet);
    let n = packet.len();
    let start = ihl + 8;
    if start > n {
        let c = local_now();
        assert(tun_dns_step(engine.spec_config(), packet@, c) == TunDnsStep::Ignore);
        return TunDnsAction::Ignore;
    }
    let payload = copy_range(packet, start, n);
    assert(payload@ =~= packet@.skip(start as int));
    let domain = match DnsParser::extract_domain(payload.as_slice()) {
        Some(d) => d,
        None => {
            let c = local_now();
            assert(tun_dns_step(engine.spec_config(), packet@, c) == TunDnsStep::Ignore);
            return TunDnsAction::Ignore;
        },
    };
    let mut url = string_of("http://");
    push_str(&mut url, domain.as_str());
    let verdict = engine.check_access_guarded(domain.as_str(), url.as_str());
    let r = match verdict {
        None => TunDnsAction::Fault,
        Some((allowed, _)) => {
            if allowed {
                TunDnsAction::Forward
            } else if !dns_block_is_safe(packet) {
                TunDnsAction::Fault
            } else {
                match build_dns_blocked_response(packet, &[127u8, 0u8, 0u8, 1u8]) {
                    Some(resp) => TunDnsAction::Reply(resp),
                    None => TunDnsAction::Ignore,
                }
            }
        },
    };
    proof {
        let cfg = engine.spec_config();
        assert(url@ == dns_check_url(domain@));
        let c = choose|c: LocalClock|
            clock_valid(c) && #[trigger] access_check_safe(cfg, domain@, url@, c) == (verdict is Some)
                && (verdict matches Some(v) ==> (v.0, opt_view(v.1)) == access_verdict(
                cfg,
                domain@,
                url@,
                c,
            ));
        let bip: [u8; 4] = [127u8, 0u8, 0u8, 1u8];
        assert(bip@ =~= seq![127u8, 0u8, 0u8, 1u8]);
        assert(tun_dns_view(r) == tun_dns_step(cfg, packet@, c));
    }
    r
}

// ---------------------------------------------------------------------------
// The tunnel's running state
// ---------------------------------------------------------------------------

/// Whether the tunnel runs, with which configuration, the traffic counted,
/// and the connections it holds.
pub struct TunState {
    running: bool,
    config: Option<TunConfig>,
    bytes_in: u64,
    bytes_out: u64,
    conns: TcpConnTable,
}

impl TunState {
    pub closed spec fn spec_running(&self) -> bool {
        self.running
    }

    pub closed spec fn spec_config(&self) -> Option<TunConfig> {
        self.config
    }

    pub closed spec fn spec_bytes_in(&self) -> u64 {
        self.bytes_in
    }

    pub closed spec fn spec_bytes_out(&self) -> u64 {
        self.bytes_out
    }

    pub closed spec fn spec_conns(&self) -> Map<u128, ConnView> {
        self.conns.view()
    }

    /// A running tunnel has a configuration and a stopped one has none.
    pub open spec fn wf(&self) -> bool {
        self.spec_running() == (self.spec_config() is Some)
    }

    /// A stopped tunnel with nothing counted and no connections.
    pub fn new() -> (r: Self)
        ensures
            r.wf(),
            !r.spec_running(),
            r.spec_bytes_in() == 0,
            r.spec_bytes_out() == 0,
            r.spec_conns() == Map::<u128, ConnView>::empty(),
    {
        TunState {
            running: false,
            config: None,
            bytes_in: 0,
            bytes_out: 0,
            conns: TcpConnTable::new(),
        }
    }

    pub fn is_running(&self) -> (r: bool)
        ensures
            r == self.spec_running(),
    {
        self.running
    }

    pub fn bytes_in(&self) -> (r: u64)
        ensures
            r == self.spec_bytes_in(),
    {
        self.bytes_in
    }

    /// Whether a start may proceed: not while running.
    pub fn check_can_start(&self) -> (r: Result<(), TunError>)
        ensures
            r is Ok <==> !self.spec_running(),
            r matches Err(e) ==> e is AlreadyRunning,
    {
        if self.running {
            Err(TunError::AlreadyRunning)
        } else {
            Ok(())
        }
    }

    /// Records a started tunnel with its final configuration, and reports
    /// it active with that configuration and nothing counted.
    pub fn mark_started(&mut self, config: TunConfig) -> (r: TunStatus)
        requires
            !old(self).spec_running(),
        ensures
            final(self).wf(),
            final(self).spec_running(),
            opt_config_view(final(self).spec_config()) == Some(config_view(config)),
            final(self).spec_bytes_in() == old(self).spec_bytes_in(),
            final(self).spec_bytes_out() == old(self).spec_bytes_out(),
            final(self).spec_conns() == old(self).spec_conns(),
            r.active,
            opt_config_view(r.config) == Some(config_view(config)),
            r.bytes_in == 0,
            r.bytes_out == 0,
            r.error is None,
    {
        let shown = config.duplicate();
        self.config = Some(config);
        self.running = true;
        TunStatus { active: true, config: Some(shown), bytes_in: 0, bytes_out: 0, error: None }
    }

    /// Stops the tunnel: forgets the configuration, the counts and the
    /// connections. Fails when it is not running.
    pub fn stop(&mut self) -> (r: Result<(), TunError>)
        ensures
            r is Ok <==> old(self).spec_running(),
            r matches Err(e) ==> e is NotRunning,
            r is Err ==> *final(self) == *old(self),
            r is Ok ==> {
                &&& final(self).wf()
                &&& !final(self).spec_running()
                &&& final(self).spec_bytes_in() == 0
                &&& final(self).spec_bytes_out() == 0
                &&& final(self).spec_conns() == Map::<u128, ConnView>::empty()
            },
    {
        if !self.running {
            return Err(TunError::NotRunning);
        }
        self.config = None;
        self.running = false;
        self.bytes_in = 0;
        self.bytes_out = 0;
        self.conns.clear();
        Ok(())
    }

    /// The tunnel's status.
    pub fn status(&self) -> (r: TunStatus)
        ensures
            r.active == self.spec_running(),
            opt_config_view(r.config) == opt_config_view(self.spec_config()),
            r.bytes_in == self.spec_bytes_in(),
            r.bytes_out == self.spec_bytes_out(),
            r.error is None,
    {
        TunStatus {
            active: self.running,
            config: duplicate_opt(&self.config),
            bytes_in: self.bytes_in,
            bytes_out: self.bytes_out,
            error: None,
        }
    }

    /// Points a running tunnel at another upstream proxy.
    pub fn update_upstream(&mut self, host: String, port: u16) -> (r: Result<(), TunError>)
        requires
            old(self).wf(),
        ensures
            final(self).wf(),
            r is Ok <==> old(self).spec_running(),
            r matches Err(e) ==> e is NotRunning,
            r is Err ==> *final(self) == *old(self),
            r is Ok ==> ({
                let o = old(self).spec_config().unwrap();
                let n = final(self).spec_config().unwrap();
                &&& final(self).spec_running()
                &&& config_view(n) == (
                    o.device_name@,
                    o.tunnel_ip@,
                    o.tunnel_netmask@,
                    o.dns_server@,
                    o.mtu,
                    host@,
                    port,
                    o.physical_ip@,
                )
            }),
            final(self).spec_bytes_in() == old(self).spec_bytes_in(),
            final(self).spec_bytes_out() == old(self).spec_bytes_out(),
            final(self).spec_conns() == old(self).spec_conns(),
    {
        if !self.running {
            return Err(TunError::NotRunning);
        }
        match self.config.take() {
            Some(mut c) => {
                c.upstream_host = host;
                c.upstream_port = port;
                self.config = Some(c);
                Ok(())
            },
            None => Err(TunError::NotRunning),
        }
    }

    /// Counts `n` bytes read from the tunnel; `false` (and nothing counted)
    /// once the tunnel has stopped.
    pub fn note_received(&mut self, n: u64) -> (r: bool)
        requires
            old(self).spec_bytes_in() + n <= u64::MAX,
        ensures
            r == old(self).spec_running(),
            final(self).spec_bytes_in() == if r {
                old(self).spec_bytes_in() + n
            } else {
                old(self).spec_bytes_in() as int
            },
            final(self).spec_running() == old(self).spec_running(),
            final(self).spec_config() == old(self).spec_config(),
            final(self).spec_bytes_out() == old(self).spec_bytes_out(),
            final(self).spec_conns() == old(self).spec_conns(),
    {
        if !self.running {
            return false;
        }
        self.bytes_in = self.bytes_in + n;
        true
    }

    /// Counts `n` bytes written to the tunnel (the counter wraps around).
    pub fn note_sent(&mut self, n: u64)
        ensures
            final(self).spec_bytes_out() == old(self).spec_bytes_out().wrapping_add(n),
            final(self).spec_running() == old(self).spec_running(),
            final(self).spec_config() == old(self).spec_config(),
            final(self).spec_bytes_in() == old(self).spec_bytes_in(),
            final(self).spec_conns() == old(self).spec_conns(),
    {
        self.bytes_out = self.bytes_out.wrapping_add(n);
    }

    /// The decision for a client segment (see `TcpConnTable::on_segment_at`).
    pub fn on_segment_at(&mut self, packet: &[u8], server_seq: u32) -> (r: TcpAction)
        ensures
            tcp_action_view(r) == tcp_step(old(self).spec_conns(), packet@, server_seq).0,
            final(self).spec_conns() == tcp_step(old(self).spec_conns(), packet@, server_seq).1,
            final(self).spec_running() == old(self).spec_running(),
            final(self).spec_config() == old(self).spec_config(),
            final(self).spec_bytes_in() == old(self).spec_bytes_in(),
            final(self).spec_bytes_out() == old(self).spec_bytes_out(),
    {
        self.conns.on_segment_at(packet, server_seq)
    }

    /// The decision for a client segment, numbering a new connection from
    /// the clock.
    pub fn on_segment(&mut self, packet: &[u8]) -> (r: TcpAction)
        ensures
            exists|server_seq: u32|
                tcp_action_view(r) == (#[trigger] tcp_step(old(self).spec_conns(), packet@, server_seq)).0
                    && final(self).spec_conns() == tcp_step(
                    old(self).spec_conns(),
                    packet@,
                    server_seq,
                ).1,
            final(self).spec_running() == old(self).spec_running(),
            final(self).spec_config() == old(self).spec_config(),
            final(self).spec_bytes_in() == old(self).spec_bytes_in(),
            final(self).spec_bytes_out() == old(self).spec_bytes_out(),
    {
        let clock = local_now();
        let r = self.on_segment_at(packet, clock.nanos);
        assert(tcp_action_view(r) == tcp_step(old(self).spec_conns(), packet@, clock.nanos).0);
        r
    }

    /// Records a connection whose SYN+ACK went out.
    pub fn register_conn(&mut self, key: u128, server_seq: u32, client_ack: u32)
        ensures
            final(self).spec_conns() == old(self).spec_conns().insert(
                key,
                (server_seq, client_ack, false, Seq::<Seq<u8>>::empty()),
            ),
            final(self).spec_running() == old(self).spec_running(),
            final(self).spec_config() == old(self).spec_config(),
            final(self).spec_bytes_in() == old(self).spec_bytes_in(),
            final(self).spec_bytes_out() == old(self).spec_bytes_out(),
    {
        self.conns.register(key, server_seq, client_ack)
    }

    /// Marks a connection's relay as up and hands out the data held for it.
    pub fn relay_ready(&mut self, key: u128) -> (r: Option<Vec<Vec<u8>>>)
        ensures
            match old(self).spec_conns().get(key) {
                Some(c) => {
                    &&& r matches Some(v) && byte_seqs(v@) == c.3
                    &&& final(self).spec_conns() == old(self).spec_conns().insert(
                        key,
                        (c.0, c.1, true, Seq::<Seq<u8>>::empty()),
                    )
                },
                None => r is None && final(self).spec_conns() == old(self).spec_conns(),
            },
            final(self).spec_running() == old(self).spec_running(),
            final(self).spec_config() == old(self).spec_config(),
            final(self).spec_bytes_in() == old(self).spec_bytes_in(),
            final(self).spec_bytes_out() == old(self).spec_bytes_out(),
    {
        self.conns.mark_ready(key)
    }

    /// Drops a connection.
    pub fn remove_conn(&mut self, key: u128) -> (r: bool)
        ensures
            r == old(self).spec_conns().contains_key(key),
            final(self).spec_conns() == old(self).spec_conns().remove(key),
            final(self).spec_running() == old(self).spec_running(),
            final(self).spec_config() == old(self).spec_config(),
            final(self).spec_bytes_in() == old(self).spec_bytes_in(),
            final(self).spec_bytes_out() == old(self).spec_bytes_out(),
    {
        self.conns.remove(key)
    }

    /// The acknowledgement number owed to the client of a connection.
    pub fn client_ack(&self, key: u128) -> (r: Option<u32>)
        ensures
            match self.spec_conns().get(key) {
                Some(c) => r == Some(c.1),
                None => r is None,
            },
    {
        self.conns.client_ack(key)
    }
}

impl Default for TunState {
    fn default() -> (r: Self)
        ensures
            r.wf(),
            !r.spec_running(),
            r.spec_bytes_in() == 0,
            r.spec_bytes_out() == 0,
            r.spec_conns() == Map::<u128, ConnView>::empty(),
    {
        TunState::new()
    }
}

// ---------------------------------------------------------------------------
// Laws
// ---------------------------------------------------------------------------

/// A segment with neither SYN nor FIN nor data is never answered: ACKs do
/// not answer ACKs.
pub proof fn lemma_no_reply_without_syn_fin_or_data(t: Map<u128, ConnView>, p: Seq<u8>, server_seq: u32)
    requires
        p.len() >= 40,
        ihl_bytes(p) + 14 <= p.len(),
        !bit(seg_flags(p), 2),
        !bit(seg_flags(p), 1),
        p.len() <= ihl_bytes(p) + tcp_hl(p),
    ensures
        tcp_step(t, p, server_seq).0 is Ignore || tcp_step(t, p, server_seq).0 is AckNoted,
{
}

/// No segment adds a connection to the table: connections are only added
/// once their SYN+ACK has gone out.
pub proof fn lemma_segments_add_no_connection(t: Map<u128, ConnView>, p: Seq<u8>, server_seq: u32, k: u128)
    requires
        tcp_step(t, p, server_seq).1.contains_key(k),
    ensures
        t.contains_key(k),
{
}

/// A FIN that closes a connection removes it from the table.
pub proof fn lemma_fin_removes_connection(t: Map<u128, ConnView>, p: Seq<u8>, server_seq: u32)
    requires
        tcp_step(t, p, server_seq).0 is Fin,
    ensures
        !tcp_step(t, p, server_seq).1.contains_key(seg_key(p)),
{
}

/// Data that arrives before the relay is up is appended, in arrival order,
/// to what is held for the connection.
pub proof fn lemma_early_data_held_in_order(t: Map<u128, ConnView>, p: Seq<u8>, server_seq: u32)
    requires
        tcp_step(t, p, server_seq).0 is Buffered,
    ensures
        t.contains_key(seg_key(p)),
        tcp_step(t, p, server_seq).1[seg_key(p)].3 == t[seg_key(p)].3.push(
            p.skip(ihl_bytes(p) + tcp_hl(p)),
        ),
{
}

/// TCP and UDP packets whose source is not the client address are never
/// handled: they are the tunnel's own replies routed back into it.
pub proof fn lemma_foreign_source_skipped(p: Seq<u8>)
    requires
        p.len() >= 40,
        p[9] == 6 || p[9] == 17,
        src_addr(p) != seq![10u8, 0u8, 0u8, 2u8],
    ensures
        tun_packet_kind(p) == TunPacketKind::Skip,
{
}

/// Where a client segment's payload starts: after its IP header and its
/// TCP header, whose length is the header's data offset, taken as at least
/// 20 bytes.
pub open spec fn payload_start(p: Seq<u8>) -> int {
    let off = tcp_header_at(p, ihl_bytes(p)).unwrap().data_offset as int;
    ihl_bytes(p) + if off < 20 {
        20
    } else {
        off
    }
}

/// Whatever the connections' state, the data a segment hands on is its
/// payload after the TCP header: passed to a ready relay, or held, in the
/// same bytes, for a relay not up yet.
pub proof fn lemma_data_handed_on_is_payload(t: Map<u128, ConnView>, p: Seq<u8>, server_seq: u32)
    ensures
        match tcp_step(t, p, server_seq).0 {
            TcpStep::Forward(key, reply, data) => {
                &&& tcp_header_at(p, ihl_bytes(p)) is Some
                &&& data == p.skip(payload_start(p))
            },
            TcpStep::Buffered(reply) => {
                &&& tcp_header_at(p, ihl_bytes(p)) is Some
                &&& t.contains_key(seg_key(p))
                &&& tcp_step(t, p, server_seq).1[seg_key(p)].3 == t[seg_key(p)].3.push(
                    p.skip(payload_start(p)),
                )
            },
            _ => true,
        },
{
    let r = tcp_step(t, p, server_seq);
    match r.0 {
        TcpStep::Forward(key, reply, data) => {
            assert(p.len() > ihl_bytes(p) + tcp_hl(p));
            assert(tcp_hl(p) >= 20);
            assert(payload_start(p) == ihl_bytes(p) + tcp_hl(p));
        },
        TcpStep::Buffered(reply) => {
            assert(p.len() > ihl_bytes(p) + tcp_hl(p));
            assert(tcp_hl(p) >= 20);
            assert(payload_start(p) == ihl_bytes(p) + tcp_hl(p));
        },
        _ => {},
    }
}

} // verus!
