//! IPv4/TCP/UDP packet construction for the tunnel: the Internet checksum,
//! the TCP segments written back to the client, and the DNS answers forged
//! or relayed through the tunnel.
use vstd::prelude::*;
use vstd::arithmetic::div_mod::lemma_mod_multiples_vanish;
use crate::nat_table::{be16, be16_at, be32, be32_at, ipv4_header_of, tcp_header_at, IpHeader, TcpHeader};

verus! {

// ---------------------------------------------------------------------------
// Internet checksum
// ---------------------------------------------------------------------------

/// The sum of the first `n` big-endian 16-bit words of `h`.
pub open spec fn pair_sum(h: Seq<u8>, n: nat) -> nat
    decreases n,
{
    if n == 0 {
        0
    } else {
        (pair_sum(h, (n - 1) as nat) + h[2 * (n - 1)] * 256 + h[2 * (n - 1) + 1]) as nat
    }
}

/// The 16-bit words of `h` summed, a last odd byte counting as its high
/// byte.
pub open spec fn ones_sum(h: Seq<u8>) -> nat {
    (pair_sum(h, h.len() / 2) + if h.len() % 2 == 1 {
        h[h.len() - 1] * 256
    } else {
        0
    }) as nat
}

/// End-around carry folding down to 16 bits.
pub open spec fn fold16(s: nat) -> nat
    decreases s,
{
    if s < 65536 {
        s
    } else {
        proof {
            assert(s % 65536 + s / 65536 < s) by (nonlinear_arith)
                requires
                    s >= 65536,
            ;
        }
        fold16(s % 65536 + s / 65536)
    }
}

/// The Internet checksum of `h`: the complement of its folded word sum.
pub open spec fn checksum(h: Seq<u8>) -> u16 {
    (65535 - fold16(ones_sum(h))) as u16
}

/// The input lengths the checksum takes: at least one byte (the word loop
/// runs up to one before the last byte, which an empty input does not
/// have), and no more than keeps the word sum within 32 bits.
pub open spec fn checksum_len_ok(n: int) -> bool {
    1 <= n <= 131071
}

proof fn lemma_pair_sum_bound(h: Seq<u8>, n: nat)
    requires
        2 * n <= h.len(),
    ensures
        pair_sum(h, n) <= n * 65535,
    decreases n,
{
    if n > 0 {
        lemma_pair_sum_bound(h, (n - 1) as nat);
        assert(h[2 * (n - 1)] * 256 + h[2 * (n - 1) + 1] <= 65535);
    }
}

proof fn lemma_fold16_small(s: nat)
    ensures
        fold16(s) < 65536,
    decreases s,
{
    if s >= 65536 {
        assert(s % 65536 + s / 65536 < s) by (nonlinear_arith)
            requires
                s >= 65536,
        ;
        lemma_fold16_small(s % 65536 + s / 65536);
    }
}

/// The Internet checksum of `header` (ones'-complement sum of its 16-bit
/// words, complemented).
pub fn calc_ip_checksum(header: &[u8]) -> (r: u16)
    requires
        checksum_len_ok(header@.len() as int),
    ensures
        r == checksum(header@),
{
    let len = header.len();
    let mut sum: u32 = 0;
    let mut i: usize = 0;
    proof {
        lemma_pair_sum_bound(header@, (len / 2) as nat);
        assert((len / 2) * 65535 + 65280 <= u32::MAX) by (nonlinear_arith)
            requires
                len <= 131071,
        ;
    }
    while i + 1 < len
        invariant
            len == header@.len(),
            len <= 131071,
            i % 2 == 0,
            i <= len,
            i + 1 >= len ==> i / 2 == len / 2,
            sum == pair_sum(header@, (i / 2) as nat),
            pair_sum(header@, (len / 2) as nat) + 65280 <= u32::MAX,
        decreases len - i,
    {
        let word = ((header[i] as u32) << 8u32) | (header[i + 1] as u32);
        let hi = header[i] as u32;
        let lo = header[i + 1] as u32;
        assert(word == hi * 256 + lo) by (bit_vector)
            requires
                word == (hi << 8u32) | lo,
                hi < 256,
                lo < 256,
        ;
        proof {
            lemma_pair_sum_mono(header@, ((i + 2) / 2) as nat, (len / 2) as nat);
        }
        sum = sum + word;
        i = i + 2;
    }
    if len % 2 != 0 {
        let last = (header[len - 1] as u32) << 8u32;
        let b = header[len - 1] as u32;
        assert(last == b * 256) by (bit_vector)
            requires
                last == b << 8u32,
                b < 256,
        ;
        sum = sum + last;
    }
    assert(sum == ones_sum(header@));
    let ghost total = sum as nat;
    while (sum >> 16u32) != 0
        invariant
            fold16(sum as nat) == fold16(total),
        decreases sum,
    {
        let lo = sum & 0xffffu32;
        let hi = sum >> 16u32;
        assert(lo == sum % 65536 && hi == sum / 65536 && hi > 0) by (bit_vector)
            requires
                lo == sum & 0xffffu32,
                hi == sum >> 16u32,
                hi != 0,
        ;
        assert(sum >= 65536);
        assert(sum % 65536 + sum / 65536 < sum) by (nonlinear_arith)
            requires
                sum >= 65536,
        ;
        sum = lo + hi;
    }
    assert(sum < 65536) by (bit_vector)
        requires
            (sum >> 16u32) == 0,
    ;
    proof {
        lemma_fold16_small(total);
    }
    let r = !sum;
    let out = r as u16;
    assert(out == 65535 - sum) by (bit_vector)
        requires
            r == !sum,
            out == r as u16,
            sum < 65536,
    ;
    out
}

proof fn lemma_pair_sum_mono(h: Seq<u8>, a: nat, b: nat)
    requires
        a <= b,
        2 * b <= h.len(),
    ensures
        pair_sum(h, a) <= pair_sum(h, b),
    decreases b - a,
{
    if a < b {
        lemma_pair_sum_mono(h, a, (b - 1) as nat);
    }
}

/// The pseudo-header that TCP and UDP checksums cover, followed by the
/// segment.
pub open spec fn pseudo_header(
    src_ip: Seq<u8>,
    dst_ip: Seq<u8>,
    protocol: u8,
    length: int,
    data: Seq<u8>,
) -> Seq<u8> {
    src_ip + dst_ip + seq![0u8, protocol, ((length / 256) % 256) as u8, (length % 256) as u8]
        + data
}

fn push_bytes(v: &mut Vec<u8>, b: &[u8])
    ensures
        final(v)@ == old(v)@ + b@,
{
    let ghost v0 = v@;
    let n = b.len();
    let mut i: usize = 0;
    while i < n
        invariant
            n == b@.len(),
            i <= n,
            v@ == v0 + b@.take(i as int),
        decreases n - i,
    {
        v.push(b[i]);
        i = i + 1;
        assert(v@ =~= v0 + b@.take(i as int));
    }
    assert(b@.take(n as int) =~= b@);
}

/// The TCP checksum of a segment between two addresses.
pub fn calc_tcp_checksum(src_ip: &[u8], dst_ip: &[u8], protocol: u8, tcp_data: &[u8]) -> (r: u16)
    requires
        checksum_len_ok((src_ip@.len() + dst_ip@.len() + 4 + tcp_data@.len()) as int),
    ensures
        r == checksum(pseudo_header(src_ip@, dst_ip@, protocol, tcp_data@.len() as int, tcp_data@)),
{
    let n = tcp_data.len();
    let mut pseudo: Vec<u8> = Vec::new();
    push_bytes(&mut pseudo, src_ip);
    push_bytes(&mut pseudo, dst_ip);
    pseudo.push(0u8);
    pseudo.push(protocol);
    pseudo.push(((n >> 8usize) & 0xffusize) as u8);
    pseudo.push((n & 0xffusize) as u8);
    assert(((n >> 8usize) & 0xffusize) == (n / 256) % 256 && (n & 0xffusize) == n % 256)
        by (bit_vector);
    push_bytes(&mut pseudo, tcp_data);
    assert(pseudo@ =~= pseudo_header(src_ip@, dst_ip@, protocol, n as int, tcp_data@));
    calc_ip_checksum(pseudo.as_slice())
}

/// The UDP checksum of a datagram between two addresses, with the length
/// field given.
pub fn calc_udp_checksum(
    src_ip: &[u8],
    dst_ip: &[u8],
    protocol: u8,
    length: u16,
    data: &[u8],
) -> (r: u16)
    requires
        checksum_len_ok((src_ip@.len() + dst_ip@.len() + 4 + data@.len()) as int),
    ensures
        r == checksum(pseudo_header(src_ip@, dst_ip@, protocol, length as int, data@)),
{
    let mut pseudo: Vec<u8> = Vec::new();
    push_bytes(&mut pseudo, src_ip);
    push_bytes(&mut pseudo, dst_ip);
    pseudo.push(0u8);
    pseudo.push(protocol);
    pseudo.push((length >> 8u16) as u8);
    pseudo.push((length & 0xffu16) as u8);
    assert((length >> 8u16) == (length / 256) % 256 && (length & 0xffu16) == length % 256)
        by (bit_vector);
    push_bytes(&mut pseudo, data);
    assert(pseudo@ =~= pseudo_header(src_ip@, dst_ip@, protocol, length as int, data@));
    calc_ip_checksum(pseudo.as_slice())
}

// ---------------------------------------------------------------------------
// Byte helpers
// ---------------------------------------------------------------------------

/// The bytes `d[i..j]`.
pub fn copy_range(d: &[u8], i: usize, j: usize) -> (r: Vec<u8>)
    requires
        i <= j <= d@.len(),
    ensures
        r@ == d@.subrange(i as int, j as int),
{
    let mut v: Vec<u8> = Vec::new();
    let mut k: usize = i;
    while k < j
        invariant
            i <= k <= j <= d@.len(),
            v@ == d@.subrange(i as int, k as int),
        decreases j - k,
    {
        v.push(d[k]);
        k = k + 1;
    }
    v
}

fn push_array4(v: &mut Vec<u8>, a: &[u8; 4])
    ensures
        final(v)@ == old(v)@ + a@,
{
    let ghost v0 = v@;
    v.push(a[0]);
    v.push(a[1]);
    v.push(a[2]);
    v.push(a[3]);
    assert(v@ =~= v0 + a@);
}

/// Big-endian bytes of the low 16 bits of `v`.
pub open spec fn be16_bytes(v: int) -> Seq<u8> {
    seq![((v / 256) % 256) as u8, (v % 256) as u8]
}

/// Big-endian bytes of `v`.
pub open spec fn be32_bytes(v: u32) -> Seq<u8> {
    seq![(v / 16777216) as u8, ((v / 65536) % 256) as u8, ((v / 256) % 256) as u8, (v % 256) as u8]
}

fn push_be16(v: &mut Vec<u8>, x: u16)
    ensures
        final(v)@ == old(v)@ + be16_bytes(x as int),
{
    let hi = (x / 256) as u8;
    let lo = (x % 256) as u8;
    let ghost v0 = v@;
    v.push(hi);
    v.push(lo);
    assert(v@ =~= v0 + be16_bytes(x as int));
}

fn push_be32(v: &mut Vec<u8>, x: u32)
    ensures
        final(v)@ == old(v)@ + be32_bytes(x),
{
    let b0 = (x >> 24u32) as u8;
    let b1 = ((x >> 16u32) & 0xffu32) as u8;
    let b2 = ((x >> 8u32) & 0xffu32) as u8;
    let b3 = (x & 0xffu32) as u8;
    assert(b0 == x / 16777216 && b1 == (x / 65536) % 256 && b2 == (x / 256) % 256 && b3 == x
        % 256) by (bit_vector)
        requires
            b0 == (x >> 24u32) as u8,
            b1 == ((x >> 16u32) & 0xffu32) as u8,
            b2 == ((x >> 8u32) & 0xffu32) as u8,
            b3 == (x & 0xffu32) as u8,
    ;
    let ghost v0 = v@;
    v.push(b0);
    v.push(b1);
    v.push(b2);
    v.push(b3);
    assert(v@ =~= v0 + be32_bytes(x));
}

/// Writes `x` big-endian at `v[i]`, `v[i + 1]`.
fn set_be16(v: &mut Vec<u8>, i: usize, x: u16)
    requires
        i + 2 <= old(v)@.len(),
    ensures
        final(v)@ == old(v)@.update(i as int, be16_bytes(x as int)[0]).update(
            i + 1,
            be16_bytes(x as int)[1],
        ),
{
    let _n = v.len();
    let hi = (x / 256) as u8;
    let lo = (x % 256) as u8;
    v.set(i, hi);
    v.set(i + 1, lo);
}

// ---------------------------------------------------------------------------
// TCP segments
// ---------------------------------------------------------------------------

/// TCP options padded to a whole number of 32-bit words.
pub open spec fn padded_len(n: nat) -> nat {
    if n > 0 {
        ((n + 3) / 4) * 4
    } else {
        0
    }
}

/// An IPv4 packet carrying a TCP segment, with both checksums still zero:
/// IP header (no options, DF, TTL 64), TCP header with the given options
/// padded with zeros, window 65535, then the payload.
pub open spec fn raw_tcp_packet(
    src_ip: Seq<u8>,
    src_port: u16,
    dst_ip: Seq<u8>,
    dst_port: u16,
    seq: u32,
    ack_seq: u32,
    flags: u8,
    data: Seq<u8>,
    options: Seq<u8>,
) -> Seq<u8> {
    let padded = padded_len(options.len());
    tcp_headers(
        src_ip,
        src_port,
        dst_ip,
        dst_port,
        seq,
        ack_seq,
        flags,
        (20 + padded) as int,
        (40 + padded + data.len()) as int,
    ) + options + Seq::new((padded - options.len()) as nat, |i: int| 0u8) + data
}

/// The fixed 40 bytes of IP and TCP header, for a TCP header of
/// `header_len` bytes and a packet of `total` bytes.
pub open spec fn tcp_headers(
    src_ip: Seq<u8>,
    src_port: u16,
    dst_ip: Seq<u8>,
    dst_port: u16,
    seq: u32,
    ack_seq: u32,
    flags: u8,
    header_len: int,
    total: int,
) -> Seq<u8> {
    seq![0x45u8, 0u8] + be16_bytes(total) + seq![0u8, 0u8, 0x40u8, 0u8, 64u8, 6u8, 0u8, 0u8]
        + src_ip + dst_ip + be16_bytes(src_port as int) + be16_bytes(dst_port as int)
        + be32_bytes(seq) + be32_bytes(ack_seq) + seq![
        (((header_len / 4) * 16) % 256) as u8,
        flags,
        0xffu8,
        0xffu8,
        0u8,
        0u8,
        0u8,
        0u8,
    ]
}

fn build_tcp_headers(
    src_ip: &[u8; 4],
    src_port: u16,
    dst_ip: &[u8; 4],
    dst_port: u16,
    seq: u32,
    ack_seq: u32,
    flags: u8,
    header_len: usize,
    total: usize,
) -> (r: Vec<u8>)
    requires
        header_len <= 200000,
        total <= 200000,
    ensures
        r@ == tcp_headers(
            src_ip@,
            src_port,
            dst_ip@,
            dst_port,
            seq,
            ack_seq,
            flags,
            header_len as int,
            total as int,
        ),
{
    let t = (total % 65536) as u16;
    assert(((total % 65536) / 256) % 256 == (total / 256) % 256) by (nonlinear_arith);
    assert((total % 65536) % 256 == total % 256) by (nonlinear_arith);
    let quarter = header_len / 4;
    let offset_byte = (((quarter % 256) * 16) % 256) as u8;
    assert(((quarter % 256) * 16) % 256 == (quarter * 16) % 256) by (nonlinear_arith);
    let mut pkt: Vec<u8> = Vec::new();
    pkt.push(0x45u8);
    pkt.push(0x00u8);
    push_be16(&mut pkt, t);
    pkt.push(0x00u8);
    pkt.push(0x00u8);
    pkt.push(0x40u8);
    pkt.push(0x00u8);
    pkt.push(64u8);
    pkt.push(6u8);
    pkt.push(0x00u8);
    pkt.push(0x00u8);
    push_array4(&mut pkt, src_ip);
    push_array4(&mut pkt, dst_ip);
    push_be16(&mut pkt, src_port);
    push_be16(&mut pkt, dst_port);
    push_be32(&mut pkt, seq);
    push_be32(&mut pkt, ack_seq);
    pkt.push(offset_byte);
    pkt.push(flags);
    pkt.push(0xffu8);
    pkt.push(0xffu8);
    pkt.push(0x00u8);
    pkt.push(0x00u8);
    pkt.push(0x00u8);
    pkt.push(0x00u8);
    assert(be16_bytes(t as int) =~= be16_bytes(total as int));
    assert(pkt@ =~= tcp_headers(
        src_ip@,
        src_port,
        dst_ip@,
        dst_port,
        seq,
        ack_seq,
        flags,
        header_len as int,
        total as int,
    ));
    pkt
}

/// `raw` with the IP header checksum written at bytes 10-11, then the TCP
/// checksum (over the pseudo-header and everything after the IP header)
/// written at bytes 36-37.
pub open spec fn with_checksums(raw: Seq<u8>, src_ip: Seq<u8>, dst_ip: Seq<u8>) -> Seq<u8> {
    let ip_cs = checksum(raw.take(20));
    let a = raw.update(10, be16_bytes(ip_cs as int)[0]).update(11, be16_bytes(ip_cs as int)[1]);
    let tcp_cs = checksum(pseudo_header(src_ip, dst_ip, 6, a.len() - 20, a.skip(20)));
    a.update(36, be16_bytes(tcp_cs as int)[0]).update(37, be16_bytes(tcp_cs as int)[1])
}

pub open spec fn tcp_packet(
    src_ip: Seq<u8>,
    src_port: u16,
    dst_ip: Seq<u8>,
    dst_port: u16,
    seq: u32,
    ack_seq: u32,
    flags: u8,
    data: Seq<u8>,
    options: Seq<u8>,
) -> Seq<u8> {
    with_checksums(
        raw_tcp_packet(src_ip, src_port, dst_ip, dst_port, seq, ack_seq, flags, data, options),
        src_ip,
        dst_ip,
    )
}

/// The segments whose checksum fits the 32-bit word sum.
pub open spec fn tcp_packet_fits(data_len: nat, options_len: nat) -> bool {
    32 + padded_len(options_len) + data_len <= 131071
}

/// Builds an IPv4/TCP packet with the given options.
pub fn build_tcp_packet_with_options(
    src_ip: &[u8; 4],
    src_port: u16,
    dst_ip: &[u8; 4],
    dst_port: u16,
    seq: u32,
    ack_seq: u32,
    flags: u8,
    data: &[u8],
    options: &[u8],
) -> (r: Vec<u8>)
    requires
        tcp_packet_fits(data@.len(), options@.len()),
    ensures
        r@ == tcp_packet(src_ip@, src_port, dst_ip@, dst_port, seq, ack_seq, flags, data@, options@),
{
    let opt_len = options.len();
    let dlen = data.len();
    let padded: usize = if opt_len > 0 {
        ((opt_len + 3) / 4) * 4
    } else {
        0
    };
    assert(padded == padded_len(opt_len as nat));
    let header_len = 20 + padded;
    let ghost raw = raw_tcp_packet(
        src_ip@,
        src_port,
        dst_ip@,
        dst_port,
        seq,
        ack_seq,
        flags,
        data@,
        options@,
    );
    let mut pkt = build_tcp_headers(
        src_ip,
        src_port,
        dst_ip,
        dst_port,
        seq,
        ack_seq,
        flags,
        header_len,
        20 + header_len + dlen,
    );
    push_bytes(&mut pkt, options);
    let ghost with_opts = pkt@;
    let mut k: usize = opt_len;
    while k < padded
        invariant
            opt_len <= k <= padded,
            pkt@ == with_opts + Seq::new((k - opt_len) as nat, |i: int| 0u8),
        decreases padded - k,
    {
        pkt.push(0x00u8);
        k = k + 1;
        assert(pkt@ =~= with_opts + Seq::new((k - opt_len) as nat, |i: int| 0u8));
    }
    push_bytes(&mut pkt, data);
    assert(pkt@ =~= raw);
    let ip_header = copy_range(pkt.as_slice(), 0, 20);
    assert(ip_header@ =~= raw.take(20));
    let cs = calc_ip_checksum(ip_header.as_slice());
    set_be16(&mut pkt, 10, cs);
    let ghost a = pkt@;
    let plen = pkt.len();
    let segment = copy_range(pkt.as_slice(), 20, plen);
    assert(segment@ =~= a.skip(20));
    let tcp_cs = calc_tcp_checksum(src_ip.as_slice(), dst_ip.as_slice(), 6, segment.as_slice());
    set_be16(&mut pkt, 36, tcp_cs);
    pkt
}

/// Builds an IPv4/TCP packet without options.
pub fn build_tcp_packet(
    src_ip: &[u8; 4],
    src_port: u16,
    dst_ip: &[u8; 4],
    dst_port: u16,
    seq: u32,
    ack_seq: u32,
    flags: u8,
    data: &[u8],
) -> (r: Vec<u8>)
    requires
        tcp_packet_fits(data@.len(), 0),
    ensures
        r@ == tcp_packet(src_ip@, src_port, dst_ip@, dst_port, seq, ack_seq, flags, data@, seq![]),
{
    let none: Vec<u8> = Vec::new();
    build_tcp_packet_with_options(
        src_ip,
        src_port,
        dst_ip,
        dst_port,
        seq,
        ack_seq,
        flags,
        data,
        none.as_slice(),
    )
}

// ---------------------------------------------------------------------------
// Checksums verify
// ---------------------------------------------------------------------------

proof fn lemma_pair_sum_put(h: Seq<u8>, f: int, a: u8, b: u8, n: nat)
    requires
        0 <= f,
        f % 2 == 0,
        f + 1 < h.len(),
        h[f] == 0,
        h[f + 1] == 0,
        2 * n <= h.len(),
    ensures
        pair_sum(h.update(f, a).update(f + 1, b), n) == pair_sum(h, n) + if f / 2 < n {
            a * 256 + b
        } else {
            0
        },
    decreases n,
{
    let g = h.update(f, a).update(f + 1, b);
    if n > 0 {
        lemma_pair_sum_put(h, f, a, b, (n - 1) as nat);
        let i = 2 * (n - 1);
        if i == f {
            assert(g[i] == a && g[i + 1] == b);
        } else {
            assert(i != f + 1 && i + 1 != f && i + 1 != f + 1);
            assert(g[i] == h[i] && g[i + 1] == h[i + 1]);
        }
    }
}

proof fn lemma_ones_sum_put(h: Seq<u8>, f: int, a: u8, b: u8)
    requires
        0 <= f,
        f % 2 == 0,
        f + 1 < h.len(),
        h[f] == 0,
        h[f + 1] == 0,
    ensures
        ones_sum(h.update(f, a).update(f + 1, b)) == ones_sum(h) + a * 256 + b,
{
    let g = h.update(f, a).update(f + 1, b);
    lemma_pair_sum_put(h, f, a, b, h.len() / 2);
    assert(f / 2 < h.len() / 2);
    if h.len() % 2 == 1 {
        assert(g[h.len() - 1] == h[h.len() - 1]);
    }
}

/// End-around-carry folding keeps a sum's residue modulo 65535, and leaves
/// a positive sum in [1, 65535].
proof fn lemma_fold16_residue(s: nat)
    ensures
        s == 0 ==> fold16(s) == 0,
        s > 0 ==> 1 <= fold16(s) <= 65535 && fold16(s) % 65535 == s % 65535,
    decreases s,
{
    if s >= 65536 {
        let q = s / 65536;
        let r = s % 65536;
        let t = (r + q) as nat;
        assert(s == 65536 * q + r);
        assert(t < s && t >= 1);
        lemma_fold16_residue(t);
        lemma_mod_multiples_vanish(q as int, t as int, 65535);
        assert(65535 * q + t == s);
    }
}

/// A header whose two-byte checksum field (at the even offset `f`) was
/// zero, once the checksum of it is written there, has checksum zero: the
/// receiver's check passes.
pub proof fn lemma_checksum_verifies(h: Seq<u8>, f: int)
    requires
        0 <= f,
        f % 2 == 0,
        f + 1 < h.len(),
        h[f] == 0,
        h[f + 1] == 0,
    ensures
        checksum(put16(h, f, checksum(h) as int)) == 0,
{
    let sum = ones_sum(h);
    lemma_fold16_residue(sum);
    let c = checksum(h);
    assert(c == 65535 - fold16(sum));
    let hi = be16_bytes(c as int)[0];
    let lo = be16_bytes(c as int)[1];
    assert(hi * 256 + lo == c);
    lemma_ones_sum_put(h, f, hi, lo);
    let total = (sum + c) as nat;
    assert(ones_sum(put16(h, f, c as int)) == total);
    lemma_fold16_residue(total);
    if sum > 0 {
        let k = sum / 65535;
        let m = sum % 65535;
        let k2 = fold16(sum) / 65535;
        assert(sum == 65535 * k + m);
        assert(fold16(sum) == 65535 * k2 + m);
        assert(total == 65535 * (k - k2 + 1) + 0);
        lemma_mod_multiples_vanish(k - k2 + 1, 0, 65535);
        assert(fold16(total) % 65535 == 0);
        assert(fold16(total) == 65535);
    } else {
        assert(total == 65535);
    }
}

/// The IP header of every TCP packet built here passes the receiver's
/// checksum test.
pub proof fn lemma_tcp_packet_ip_checksum(
    src_ip: Seq<u8>,
    src_port: u16,
    dst_ip: Seq<u8>,
    dst_port: u16,
    seq: u32,
    ack_seq: u32,
    flags: u8,
    data: Seq<u8>,
    options: Seq<u8>,
)
    requires
        src_ip.len() == 4,
        dst_ip.len() == 4,
    ensures
        checksum(
            tcp_packet(src_ip, src_port, dst_ip, dst_port, seq, ack_seq, flags, data, options).take(20),
        ) == 0,
{
    let raw = raw_tcp_packet(src_ip, src_port, dst_ip, dst_port, seq, ack_seq, flags, data, options);
    let head = raw.take(20);
    let ip_cs = checksum(head);
    let a = raw.update(10, be16_bytes(ip_cs as int)[0]).update(11, be16_bytes(ip_cs as int)[1]);
    let p = tcp_packet(src_ip, src_port, dst_ip, dst_port, seq, ack_seq, flags, data, options);
    assert(raw.len() >= 40);
    assert(head[10] == 0 && head[11] == 0);
    lemma_checksum_verifies(head, 10);
    assert(p.take(20) =~= put16(head, 10, ip_cs as int));
}

/// The TCP segment of every packet built here passes the receiver's
/// checksum test over the pseudo-header.
pub proof fn lemma_tcp_packet_tcp_checksum(
    src_ip: Seq<u8>,
    src_port: u16,
    dst_ip: Seq<u8>,
    dst_port: u16,
    seq: u32,
    ack_seq: u32,
    flags: u8,
    data: Seq<u8>,
    options: Seq<u8>,
)
    requires
        src_ip.len() == 4,
        dst_ip.len() == 4,
    ensures
        ({
            let p = tcp_packet(src_ip, src_port, dst_ip, dst_port, seq, ack_seq, flags, data, options);
            checksum(pseudo_header(src_ip, dst_ip, 6, p.len() - 20, p.skip(20))) == 0
        }),
{
    let raw = raw_tcp_packet(src_ip, src_port, dst_ip, dst_port, seq, ack_seq, flags, data, options);
    let ip_cs = checksum(raw.take(20));
    let a = raw.update(10, be16_bytes(ip_cs as int)[0]).update(11, be16_bytes(ip_cs as int)[1]);
    let ph = pseudo_header(src_ip, dst_ip, 6, a.len() - 20, a.skip(20));
    let tcp_cs = checksum(ph);
    let p = tcp_packet(src_ip, src_port, dst_ip, dst_port, seq, ack_seq, flags, data, options);
    assert(raw.len() >= 40);
    assert(raw[36] == 0 && raw[37] == 0);
    assert(ph[28] == 0 && ph[29] == 0);
    lemma_checksum_verifies(ph, 28);
    assert(pseudo_header(src_ip, dst_ip, 6, p.len() - 20, p.skip(20)) =~= put16(ph, 28, tcp_cs as int));
}

// ---------------------------------------------------------------------------
// Classification
// ---------------------------------------------------------------------------

/// The IP header length that the first byte of `p` gives, in bytes.
pub open spec fn ihl_bytes(p: Seq<u8>) -> int {
    (p[0] % 16) * 4
}

pub(crate) fn ihl_of(packet: &[u8]) -> (r: usize)
    requires
        packet@.len() >= 1,
    ensures
        r == ihl_bytes(packet@),
        r <= 60,
{
    let b = packet[0];
    let low = b & 0x0fu8;
    assert(low == b % 16) by (bit_vector)
        requires
            low == b & 0x0fu8,
    ;
    (low as usize) * 4
}

/// A packet long enough for IP and TCP headers whose protocol is TCP.
pub fn is_tcp_packet(packet: &[u8]) -> (r: bool)
    ensures
        r == (packet@.len() >= 40 && packet@[9] == 6),
{
    packet.len() >= 40 && packet[9] == 6
}

/// Reading the UDP destination port of `p` stays inside it.
pub open spec fn dns_check_safe(p: Seq<u8>) -> bool {
    (p.len() >= 28 && p[9] == 17) ==> ihl_bytes(p) + 4 <= p.len()
}

/// A UDP datagram (of at least 28 bytes) to port 53.
pub open spec fn is_dns(p: Seq<u8>) -> bool {
    p.len() >= 28 && p[9] == 17 && p[ihl_bytes(p) + 2] * 256 + p[ihl_bytes(p) + 3] == 53
}

/// Whether a packet is a UDP datagram to port 53.
pub fn is_dns_packet(packet: &[u8]) -> (r: bool)
    requires
        dns_check_safe(packet@),
    ensures
        r == is_dns(packet@),
{
    if packet.len() < 28 {
        return false;
    }
    let ihl = ihl_of(packet);
    if packet[9] != 17 {
        return false;
    }
    let dst_port = (packet[ihl + 2] as u16) * 256 + (packet[ihl + 3] as u16);
    dst_port == 53
}

// ---------------------------------------------------------------------------
// DNS answers through the tunnel
// ---------------------------------------------------------------------------

/// `s` with `src` written from index `i` on.
pub open spec fn splice(s: Seq<u8>, i: int, src: Seq<u8>) -> Seq<u8> {
    s.take(i) + src + s.skip(i + src.len())
}

/// `s` with the big-endian 16 bits of `v` written at `i`.
pub open spec fn put16(s: Seq<u8>, i: int, v: int) -> Seq<u8> {
    s.update(i, be16_bytes(v)[0]).update(i + 1, be16_bytes(v)[1])
}

/// The answer record appended to a blocked query: a pointer to the
/// question's name, type A, class IN, TTL 60, four bytes of address.
pub open spec fn blocked_answer_record(ip: Seq<u8>) -> Seq<u8> {
    seq![0xC0u8, 0x0Cu8, 0x00u8, 0x01u8, 0x00u8, 0x01u8, 0x00u8, 0x00u8, 0x00u8, 0x3Cu8, 0x00u8, 0x04u8]
        + ip
}

/// The IP/UDP/DNS packet that answers the query packet `p` with the address
/// `ip`: addresses and ports swapped, flags 0x8180, one answer, the record
/// appended, lengths and checksums set.
pub open spec fn dns_block_reply(p: Seq<u8>, ip: Seq<u8>) -> Seq<u8> {
    let h = ihl_bytes(p);
    let ds = h + 8;
    let swapped = splice(
        splice(splice(splice(p, 12, p.subrange(16, 20)), 16, p.subrange(12, 16)), h, p.subrange(
            h + 2,
            h + 4,
        )),
        h + 2,
        p.subrange(h, h + 2),
    );
    let flagged = swapped.update(ds + 2, 0x81u8).update(ds + 3, 0x80u8).update(ds + 6, 0u8).update(
        ds + 7,
        1u8,
    );
    let grown = flagged + blocked_answer_record(ip);
    let total = grown.len() as int;
    let sized = put16(put16(grown, 2, total), h + 4, total - h).update(10, 0u8).update(11, 0u8);
    let ipd = put16(sized, 10, checksum(sized.take(h)) as int);
    put16(
        ipd,
        h + 6,
        checksum(
            pseudo_header(
                ipd.subrange(16, 20),
                ipd.subrange(12, 16),
                17,
                (total - h) % 65536,
                ipd.skip(h + 8),
            ),
        ) as int,
    )
}

/// The blocked-query answer can be built without reading past the packet
/// or overflowing the checksum: the header length is not zero and the
/// datagram is not huge.
pub open spec fn dns_block_safe(p: Seq<u8>) -> bool {
    p.len() >= 1 && (p.len() >= ihl_bytes(p) + 20 ==> (ihl_bytes(p) >= 4 && p.len() <= 131000))
}

fn copy4_from(v: &mut Vec<u8>, at: usize, p: &[u8], from: usize)
    requires
        at + 4 <= old(v)@.len(),
        from + 4 <= p@.len(),
    ensures
        final(v)@ == splice(old(v)@, at as int, p@.subrange(from as int, from + 4)),
{
    let _n = v.len();
    let ghost v0 = v@;
    v.set(at, p[from]);
    v.set(at + 1, p[from + 1]);
    v.set(at + 2, p[from + 2]);
    v.set(at + 3, p[from + 3]);
    assert(v@ =~= splice(v0, at as int, p@.subrange(from as int, from + 4)));
}

fn copy2_from(v: &mut Vec<u8>, at: usize, p: &[u8], from: usize)
    requires
        at + 2 <= old(v)@.len(),
        from + 2 <= p@.len(),
    ensures
        final(v)@ == splice(old(v)@, at as int, p@.subrange(from as int, from + 2)),
{
    let _n = v.len();
    let ghost v0 = v@;
    v.set(at, p[from]);
    v.set(at + 1, p[from + 1]);
    assert(v@ =~= splice(v0, at as int, p@.subrange(from as int, from + 2)));
}

proof fn lemma_be16_mod(t: int)
    requires
        t >= 0,
    ensures
        be16_bytes(t % 65536) == be16_bytes(t),
{
    assert(((t % 65536) / 256) % 256 == (t / 256) % 256) by (nonlinear_arith)
        requires
            t >= 0,
    ;
    assert((t % 65536) % 256 == t % 256) by (nonlinear_arith)
        requires
            t >= 0,
    ;
    assert(be16_bytes(t % 65536) =~= be16_bytes(t));
}

fn push_record(v: &mut Vec<u8>, ip: &[u8; 4])
    ensures
        final(v)@ == old(v)@ + blocked_answer_record(ip@),
{
    let ghost v0 = v@;
    v.push(0xC0u8);
    v.push(0x0Cu8);
    v.push(0x00u8);
    v.push(0x01u8);
    v.push(0x00u8);
    v.push(0x01u8);
    v.push(0x00u8);
    v.push(0x00u8);
    v.push(0x00u8);
    v.push(0x3Cu8);
    v.push(0x00u8);
    v.push(0x04u8);
    push_array4(v, ip);
    assert(v@ =~= v0 + blocked_answer_record(ip@));
}

/// The answer that blocks the DNS query carried by `packet`, pointing the
/// name at `blocked_ip`; `None` when the packet is too short to hold the
/// DNS header.
#[verifier::rlimit(40)]
pub fn build_dns_blocked_response(packet: &[u8], blocked_ip: &[u8; 4]) -> (r: Option<Vec<u8>>)
    requires
        dns_block_safe(packet@),
    ensures
        packet@.len() < ihl_bytes(packet@) + 20 ==> r is None,
        packet@.len() >= ihl_bytes(packet@) + 20 ==> (r matches Some(v) && v@ == dns_block_reply(
            packet@,
            blocked_ip@,
        )),
{
    let ihl = ihl_of(packet);
    let plen = packet.len();
    if plen < ihl + 20 {
        return None;
    }
    let ghost p = packet@;
    let mut resp = copy_range(packet, 0, plen);
    assert(resp@ =~= p);
    copy4_from(&mut resp, 12, packet, 16);
    copy4_from(&mut resp, 16, packet, 12);
    copy2_from(&mut resp, ihl, packet, ihl + 2);
    copy2_from(&mut resp, ihl + 2, packet, ihl);
    let ds = ihl + 8;
    resp.set(ds + 2, 0x81u8);
    resp.set(ds + 3, 0x80u8);
    resp.set(ds + 6, 0x00u8);
    resp.set(ds + 7, 0x01u8);
    push_record(&mut resp, blocked_ip);
    let total = resp.len();
    proof {
        lemma_be16_mod(total as int);
        lemma_be16_mod((total - ihl) as int);
    }
    set_be16(&mut resp, 2, (total % 65536) as u16);
    let udp_len = total - ihl;
    set_be16(&mut resp, ihl + 4, (udp_len % 65536) as u16);
    resp.set(10, 0u8);
    resp.set(11, 0u8);
    let ghost sized = resp@;
    let hdr = copy_range(resp.as_slice(), 0, ihl);
    assert(hdr@ =~= sized.take(ihl as int));
    let cs = calc_ip_checksum(hdr.as_slice());
    set_be16(&mut resp, 10, cs);
    let ghost ipd = resp@;
    let rlen = resp.len();
    let src = copy_range(resp.as_slice(), 16, 20);
    let dst = copy_range(resp.as_slice(), 12, 16);
    let payload = copy_range(resp.as_slice(), ihl + 8, rlen);
    assert(payload@ =~= ipd.skip(ihl + 8));
    let udp_cs = calc_udp_checksum(
        src.as_slice(),
        dst.as_slice(),
        17,
        (udp_len % 65536) as u16,
        payload.as_slice(),
    );
    set_be16(&mut resp, ihl + 6, udp_cs);
    Some(resp)
}

/// The packet that relays the upstream DNS `response` to the client that
/// sent the query packet `p`: the query's IP header (version byte 0x45)
/// with the addresses swapped, its UDP ports swapped, the UDP length and a
/// zero checksum, the response, then lengths and checksums set.
pub open spec fn dns_relay_reply(p: Seq<u8>, response: Seq<u8>) -> Seq<u8> {
    let h = ihl_bytes(p);
    let head = splice(splice(p.take(h).update(0, 0x45u8), 12, p.subrange(16, 20)), 16, p.subrange(
        12,
        16,
    ));
    let ports = splice(splice(head + p.subrange(h, h + 4), h, p.subrange(h + 2, h + 4)), h + 2,
    p.subrange(h, h + 2));
    let udp_len = (8 + response.len()) as int;
    let grown = ports + be16_bytes(udp_len) + seq![0u8, 0u8] + response;
    let total = grown.len() as int;
    let sized = put16(grown, 2, total).update(10, 0u8).update(11, 0u8);
    let ipd = put16(sized, 10, checksum(sized.take(h)) as int);
    put16(
        ipd,
        h + 6,
        checksum(
            pseudo_header(
                ipd.subrange(16, 20),
                ipd.subrange(12, 16),
                17,
                udp_len % 65536,
                ipd.skip(h + 8),
            ),
        ) as int,
    )
}

/// Builds the packet that relays an upstream DNS response back through the
/// tunnel.
pub fn build_dns_relay_response(packet: &[u8], response: &[u8]) -> (r: Vec<u8>)
    requires
        packet@.len() >= 1,
        ihl_bytes(packet@) >= 20,
        packet@.len() >= ihl_bytes(packet@) + 4,
        response@.len() <= 131000,
    ensures
        r@ == dns_relay_reply(packet@, response@),
{
    let ihl = ihl_of(packet);
    let ghost p = packet@;
    let mut full = copy_range(packet, 0, ihl);
    full.set(0, 0x45u8);
    copy4_from(&mut full, 12, packet, 16);
    copy4_from(&mut full, 16, packet, 12);
    let tail = copy_range(packet, ihl, ihl + 4);
    push_bytes(&mut full, tail.as_slice());
    copy2_from(&mut full, ihl, packet, ihl + 2);
    copy2_from(&mut full, ihl + 2, packet, ihl);
    let rlen = response.len();
    let udp_len = 8 + rlen;
    proof {
        lemma_be16_mod(udp_len as int);
    }
    push_be16(&mut full, (udp_len % 65536) as u16);
    full.push(0u8);
    full.push(0u8);
    push_bytes(&mut full, response);
    assert(full@ =~= splice(
        splice(
            splice(splice(p.take(ihl as int).update(0, 0x45u8), 12, p.subrange(16, 20)), 16, p.subrange(12, 16))
                + p.subrange(ihl as int, ihl + 4),
            ihl as int,
            p.subrange(ihl + 2, ihl + 4),
        ),
        ihl + 2,
        p.subrange(ihl as int, ihl + 2),
    ) + be16_bytes(udp_len as int) + seq![0u8, 0u8] + response@);
    let total = full.len();
    proof {
        lemma_be16_mod(total as int);
    }
    set_be16(&mut full, 2, (total % 65536) as u16);
    full.set(10, 0u8);
    full.set(11, 0u8);
    let ghost sized = full@;
    let hdr = copy_range(full.as_slice(), 0, ihl);
    assert(hdr@ =~= sized.take(ihl as int));
    let cs = calc_ip_checksum(hdr.as_slice());
    set_be16(&mut full, 10, cs);
    let ghost ipd = full@;
    let flen = full.len();
    let src = copy_range(full.as_slice(), 16, 20);
    let dst = copy_range(full.as_slice(), 12, 16);
    let payload = copy_range(full.as_slice(), ihl + 8, flen);
    assert(payload@ =~= ipd.skip(ihl + 8));
    let udp_cs = calc_udp_checksum(
        src.as_slice(),
        dst.as_slice(),
        17,
        (udp_len % 65536) as u16,
        payload.as_slice(),
    );
    set_be16(&mut full, ihl + 6, udp_cs);
    full
}

/// The IP header of the answer forged for a blocked DNS query passes the
/// receiver's checksum test.
pub proof fn lemma_dns_block_reply_ip_checksum(p: Seq<u8>, ip: Seq<u8>)
    requires
        ihl_bytes(p) >= 20,
        p.len() >= ihl_bytes(p) + 20,
    ensures
        checksum(dns_block_reply(p, ip).take(ihl_bytes(p))) == 0,
{
    let h = ihl_bytes(p);
    let ds = h + 8;
    let swapped = splice(
        splice(splice(splice(p, 12, p.subrange(16, 20)), 16, p.subrange(12, 16)), h, p.subrange(
            h + 2,
            h + 4,
        )),
        h + 2,
        p.subrange(h, h + 2),
    );
    let flagged = swapped.update(ds + 2, 0x81u8).update(ds + 3, 0x80u8).update(ds + 6, 0u8).update(
        ds + 7,
        1u8,
    );
    let grown = flagged + blocked_answer_record(ip);
    let total = grown.len() as int;
    let sized = put16(put16(grown, 2, total), h + 4, total - h).update(10, 0u8).update(11, 0u8);
    let cs = checksum(sized.take(h));
    let ipd = put16(sized, 10, cs as int);
    assert(sized.len() >= h + 20);
    lemma_checksum_verifies(sized.take(h), 10);
    assert(dns_block_reply(p, ip).take(h) =~= put16(sized.take(h), 10, cs as int));
}

/// The IP header of the packet relaying an upstream DNS answer passes the
/// receiver's checksum test.
pub proof fn lemma_dns_relay_reply_ip_checksum(p: Seq<u8>, response: Seq<u8>)
    requires
        ihl_bytes(p) >= 20,
        p.len() >= ihl_bytes(p) + 4,
    ensures
        checksum(dns_relay_reply(p, response).take(ihl_bytes(p))) == 0,
{
    let h = ihl_bytes(p);
    let head = splice(splice(p.take(h).update(0, 0x45u8), 12, p.subrange(16, 20)), 16, p.subrange(
        12,
        16,
    ));
    let ports = splice(splice(head + p.subrange(h, h + 4), h, p.subrange(h + 2, h + 4)), h + 2,
    p.subrange(h, h + 2));
    let udp_len = (8 + response.len()) as int;
    let grown = ports + be16_bytes(udp_len) + seq![0u8, 0u8] + response;
    let total = grown.len() as int;
    let sized = put16(grown, 2, total).update(10, 0u8).update(11, 0u8);
    let cs = checksum(sized.take(h));
    assert(sized.len() >= h + 8);
    lemma_checksum_verifies(sized.take(h), 10);
    assert(dns_relay_reply(p, response).take(h) =~= put16(sized.take(h), 10, cs as int));
}

// ---------------------------------------------------------------------------
// Reading a built packet back
// ---------------------------------------------------------------------------

proof fn lemma_padded_len(n: nat)
    ensures
        padded_len(n) >= n,
        padded_len(n) % 4 == 0,
{
    if n > 0 {
        let q = (n + 3) / 4;
        assert(q * 4 >= n && (q * 4) % 4 == 0) by (nonlinear_arith)
            requires
                q == (n + 3) / 4,
        ;
    }
}

proof fn lemma_be16_bytes_read(v: int)
    requires
        0 <= v < 65536,
    ensures
        be16(be16_bytes(v)[0], be16_bytes(v)[1]) == v,
{
    let hi = be16_bytes(v)[0];
    let lo = be16_bytes(v)[1];
    assert(v / 256 < 256 && (v / 256) % 256 == v / 256 && (v / 256) * 256 + v % 256 == v)
        by (nonlinear_arith)
        requires
            0 <= v < 65536,
    ;
    assert(hi == v / 256 && lo == v % 256);
}

proof fn lemma_be32_bytes_read(x: u32)
    ensures
        be32(be32_bytes(x)[0], be32_bytes(x)[1], be32_bytes(x)[2], be32_bytes(x)[3]) == x,
{
    let v = x as int;
    let q1 = v / 256;
    let q2 = q1 / 256;
    let q3 = q2 / 256;
    vstd::arithmetic::div_mod::lemma_div_denominator(v, 256, 256);
    vstd::arithmetic::div_mod::lemma_div_denominator(q1, 256, 256);
    vstd::arithmetic::div_mod::lemma_div_denominator(v, 65536, 256);
    assert(v / 65536 == q2);
    assert(v / 16777216 == q3);
    assert(q3 < 256 && v == q3 * 16777216 + (q2 % 256) * 65536 + (q1 % 256) * 256 + v % 256)
        by (nonlinear_arith)
        requires
            0 <= v < 0x1_0000_0000,
            q1 == v / 256,
            q2 == q1 / 256,
            q3 == q2 / 256,
    ;
    assert(be32_bytes(x)[0] == q3);
    assert(be32_bytes(x)[1] == q2 % 256);
    assert(be32_bytes(x)[2] == q1 % 256);
    assert(be32_bytes(x)[3] == v % 256);
}

/// Parsing a packet built by `tcp_packet` gives back what it was built
/// from: an IPv4 header of 20 bytes with protocol 6, the packet's length and
/// the two addresses; then a TCP header with the two ports, the sequence
/// and acknowledgement numbers, a header length of 20 bytes plus the
/// padded options, and the flags. It holds while the header length fits its
/// four bits (at most 40 bytes of padded options) and the packet's length
/// fits 16 bits.
pub proof fn lemma_built_tcp_packet_parses(
    src_ip: Seq<u8>,
    src_port: u16,
    dst_ip: Seq<u8>,
    dst_port: u16,
    seq: u32,
    ack_seq: u32,
    flags: u8,
    data: Seq<u8>,
    options: Seq<u8>,
)
    requires
        src_ip.len() == 4,
        dst_ip.len() == 4,
        padded_len(options.len()) <= 40,
        40 + padded_len(options.len()) + data.len() <= 65535,
    ensures
        ({
            let p = tcp_packet(src_ip, src_port, dst_ip, dst_port, seq, ack_seq, flags, data, options);
            &&& p.len() == 40 + padded_len(options.len()) + data.len()
            &&& ipv4_header_of(p) == Some(
                IpHeader {
                    header_len: 20,
                    total_len: p.len() as u16,
                    protocol: 6,
                    src_ip: be32_at(src_ip, 0),
                    dst_ip: be32_at(dst_ip, 0),
                },
            )
            &&& tcp_header_at(p, 20) == Some(
                TcpHeader {
                    src_port,
                    dst_port,
                    seq,
                    ack: ack_seq,
                    data_offset: (20 + padded_len(options.len())) as usize,
                    flags,
                },
            )
        }),
{
    let pad = padded_len(options.len());
    lemma_padded_len(options.len());
    let total = 40 + pad + data.len();
    let hl = 20 + pad;
    let h = tcp_headers(src_ip, src_port, dst_ip, dst_port, seq, ack_seq, flags, hl as int, total as int);
    let raw = raw_tcp_packet(src_ip, src_port, dst_ip, dst_port, seq, ack_seq, flags, data, options);
    let p = tcp_packet(src_ip, src_port, dst_ip, dst_port, seq, ack_seq, flags, data, options);
    assert(h.len() == 40);
    assert(raw.len() == total);
    assert(p.len() == raw.len());
    assert forall|i: int| 0 <= i < 40 && i != 10 && i != 11 && i != 36 && i != 37 implies p[i] == h[i] by {
        assert(raw[i] == h[i]);
    }
    // The IP header.
    assert(p[0] == 0x45u8);
    assert(p[9] == 6u8);
    assert(0x45u8 / 16 == 4 && 0x45u8 % 16 == 5);
    lemma_be16_bytes_read(total as int);
    assert(p[2] == be16_bytes(total as int)[0] && p[3] == be16_bytes(total as int)[1]);
    assert(be16_at(p, 2) == total);
    assert(p[12] == src_ip[0] && p[13] == src_ip[1] && p[14] == src_ip[2] && p[15] == src_ip[3]);
    assert(p[16] == dst_ip[0] && p[17] == dst_ip[1] && p[18] == dst_ip[2] && p[19] == dst_ip[3]);
    // The TCP header.
    lemma_be16_bytes_read(src_port as int);
    lemma_be16_bytes_read(dst_port as int);
    lemma_be32_bytes_read(seq);
    lemma_be32_bytes_read(ack_seq);
    assert(p[20] == be16_bytes(src_port as int)[0] && p[21] == be16_bytes(src_port as int)[1]);
    assert(p[22] == be16_bytes(dst_port as int)[0] && p[23] == be16_bytes(dst_port as int)[1]);
    assert(p[24] == be32_bytes(seq)[0] && p[25] == be32_bytes(seq)[1] && p[26] == be32_bytes(seq)[2]
        && p[27] == be32_bytes(seq)[3]);
    assert(p[28] == be32_bytes(ack_seq)[0] && p[29] == be32_bytes(ack_seq)[1] && p[30] == be32_bytes(
        ack_seq,
    )[2] && p[31] == be32_bytes(ack_seq)[3]);
    assert(p[33] == flags);
    let q = hl / 4;
    assert(q * 4 == hl && q <= 15) by (nonlinear_arith)
        requires
            hl == 20 + pad,
            pad % 4 == 0,
            pad <= 40,
            q == hl / 4,
    ;
    assert(p[32] == ((q * 16) % 256) as u8);
    assert(((q * 16) % 256) / 16 == q) by (nonlinear_arith)
        requires
            0 <= q <= 15,
    ;
}

} // verus!
