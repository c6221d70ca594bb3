//! Reading the server name out of a TLS ClientHello and the queried domain
//! out of a DNS query, and forging the DNS answer that blocks a query.
use vstd::prelude::*;
use vstd::utf8::{decode_utf8, valid_utf8};
use crate::models::opt_view;
use crate::nat_table::{be16, be16_at};
use crate::packet::copy_range;
use crate::text::{join, join_strings};

verus! {

broadcast use vstd::string::group_string_axioms;

// ---------------------------------------------------------------------------
// UTF-8
// ---------------------------------------------------------------------------

/// Calls `String::from_utf8`; claims that it succeeds exactly on valid
/// UTF-8, with the text the bytes encode.
#[verifier::external_body]
fn string_from_utf8(bytes: Vec<u8>) -> (r: Option<String>)
    ensures
        r is Some <==> valid_utf8(bytes@),
        r matches Some(s) ==> s@ == decode_utf8(bytes@),
{
    String::from_utf8(bytes).ok()
}

/// What `String::from_utf8_lossy` makes of `bytes`: their text, with each
/// invalid sequence replaced by U+FFFD.
pub uninterp spec fn utf8_lossy(bytes: Seq<u8>) -> Seq<char>;

/// Calls `String::from_utf8_lossy` and makes the result an owned `String`;
/// claims that it is the named lossy decoding of `bytes`, and the plain
/// decoding when the bytes are valid UTF-8.
#[verifier::external_body]
pub(crate) fn string_from_utf8_lossy(bytes: &[u8]) -> (r: String)
    ensures
        r@ == utf8_lossy(bytes@),
        valid_utf8(bytes@) ==> r@ == decode_utf8(bytes@),
{
    String::from_utf8_lossy(bytes).to_string()
}

// ---------------------------------------------------------------------------
// Reading at a position
// ---------------------------------------------------------------------------

/// Reads one byte at `*pos`. A read past the end leaves the position at the
/// end.
fn read_u8(d: &[u8], pos: &mut usize) -> (r: Option<u8>)
    requires
        *old(pos) <= d@.len(),
    ensures
        if *old(pos) < d@.len() {
            r == Some(d@[*old(pos) as int]) && *final(pos) == *old(pos) + 1
        } else {
            r is None && *final(pos) == d@.len()
        },
{
    if *pos < d.len() {
        let b = d[*pos];
        *pos = *pos + 1;
        Some(b)
    } else {
        *pos = d.len();
        None
    }
}

/// Reads a big-endian `u16` at `*pos`. A read past the end leaves the
/// position at the end.
fn read_u16_be(d: &[u8], pos: &mut usize) -> (r: Option<u16>)
    requires
        *old(pos) <= d@.len(),
    ensures
        if *old(pos) + 2 <= d@.len() {
            r == Some(be16_at(d@, *old(pos) as int)) && *final(pos) == *old(pos) + 2
        } else {
            r is None && *final(pos) == d@.len()
        },
{
    if d.len() - *pos >= 2 {
        let v = (d[*pos] as u16) * 256 + (d[*pos + 1] as u16);
        *pos = *pos + 2;
        Some(v)
    } else {
        *pos = d.len();
        None
    }
}

/// Moves `*pos` on by `count` bytes when that many are left; otherwise the
/// position stays.
fn skip_bytes(d: &[u8], pos: &mut usize, count: usize) -> (r: bool)
    requires
        *old(pos) <= d@.len(),
    ensures
        r == (*old(pos) + count <= d@.len()),
        *final(pos) == if r {
            *old(pos) + count
        } else {
            *old(pos) as int
        },
{
    if count <= d.len() - *pos {
        *pos = *pos + count;
        true
    } else {
        false
    }
}

/// Reads `len` bytes at `*pos` when that many are left; otherwise the
/// position stays.
fn read_exact_bytes(d: &[u8], pos: &mut usize, len: usize) -> (r: Option<Vec<u8>>)
    requires
        *old(pos) <= d@.len(),
    ensures
        if *old(pos) + len <= d@.len() {
            &&& r matches Some(v) && v@ == d@.subrange(*old(pos) as int, *old(pos) + len)
            &&& *final(pos) == *old(pos) + len
        } else {
            r is None && *final(pos) == *old(pos)
        },
{
    if len > d.len() - *pos {
        return None;
    }
    let v = copy_range(d, *pos, *pos + len);
    *pos = *pos + len;
    Some(v)
}

// ---------------------------------------------------------------------------
// TLS ClientHello
// ---------------------------------------------------------------------------

/// The host name in the data of a `server_name` extension that starts at
/// `p` and is `max_len` bytes long. The data is the list's two-byte length,
/// then its first entry: the name type (0 for a host name), the name's
/// two-byte length and the name. The name is read when the type is 0 and it
/// is 1 to `max_len - 5` bytes of valid UTF-8 within `d`.
pub open spec fn read_server_name(d: Seq<u8>, p: int, max_len: int) -> Option<Seq<char>> {
    let n = d.len() as int;
    if p < 0 || p + 5 > n || d[p + 2] != 0 {
        None
    } else {
        let name_len = be16_at(d, p + 3) as int;
        let q = p + 5;
        if name_len == 0 || name_len + 5 > max_len || q + name_len > n {
            None
        } else {
            let bytes = d.subrange(q, q + name_len);
            if valid_utf8(bytes) {
                Some(decode_utf8(bytes))
            } else {
                None
            }
        }
    }
}

/// The server name found among the extensions that start at `p`, each a
/// two-byte type, a two-byte length and that many bytes of data: the first
/// `server_name` extension (type 0) that yields one. Each other extension
/// is passed over by its length; one that runs past the end ends the
/// search.
pub open spec fn sni_in_extensions(d: Seq<u8>, p: int) -> Option<Seq<char>>
    decreases d.len() - p,
{
    if p < 0 || p + 4 > d.len() {
        None
    } else {
        let ext_type = be16_at(d, p);
        let ext_len = be16_at(d, p + 2) as int;
        let q = p + 4;
        if ext_type == 0 && read_server_name(d, q, ext_len) is Some {
            read_server_name(d, q, ext_len)
        } else if q + ext_len > d.len() {
            None
        } else {
            sni_in_extensions(d, q + ext_len)
        }
    }
}

/// The server name of a TLS record holding a ClientHello. The record
/// header is the content type (22 for a handshake), the version and the
/// length (5 bytes); the handshake header is its type and length (4 bytes);
/// then come the client version (2 bytes), the random (32 bytes), the
/// session id (a length byte, at offset 43), the cipher suites (a two-byte
/// length), the compression methods (a length byte), the extensions' length
/// (2 bytes) and the extensions.
pub open spec fn sni_of(d: Seq<u8>) -> Option<Seq<char>> {
    let n = d.len() as int;
    if n < 44 || d[0] != 0x16 {
        None
    } else {
        let p1 = 44 + d[43];
        if p1 + 2 > n {
            None
        } else {
            let p2 = p1 + 2 + be16_at(d, p1);
            if p2 + 1 > n {
                None
            } else {
                let p3 = p2 + 1 + d[p2];
                if p3 + 2 > n {
                    None
                } else {
                    sni_in_extensions(d, p3 + 2)
                }
            }
        }
    }
}

/// A 16-bit length written big-endian.
pub open spec fn be16_bytes_of(v: nat) -> Seq<u8> {
    seq![(v / 256) as u8, (v % 256) as u8]
}

/// A `server_name` extension naming the host `name`: type 0, its length,
/// the list's length, one entry of type 0 (host name), the name's length
/// and the name.
pub open spec fn server_name_extension(name: Seq<u8>) -> Seq<u8> {
    seq![0u8, 0u8] + be16_bytes_of(name.len() + 5) + be16_bytes_of(name.len() + 3) + seq![0u8]
        + be16_bytes_of(name.len()) + name
}

/// A TLS record holding a ClientHello: `head` (the record header, the
/// handshake header, the client version and the random, 43 bytes), then the
/// session id, the cipher suites and the compression methods, each after
/// its length, then the extensions after theirs.
pub open spec fn client_hello(
    head: Seq<u8>,
    session_id: Seq<u8>,
    cipher_suites: Seq<u8>,
    compression: Seq<u8>,
    extensions: Seq<u8>,
) -> Seq<u8> {
    head + seq![session_id.len() as u8] + session_id + be16_bytes_of(cipher_suites.len())
        + cipher_suites + seq![compression.len() as u8] + compression + be16_bytes_of(
        extensions.len(),
    ) + extensions
}

proof fn lemma_be16_bytes_of(v: nat)
    requires
        v < 65536,
    ensures
        be16(be16_bytes_of(v)[0], be16_bytes_of(v)[1]) == v,
{
    assert(v / 256 < 256 && (v / 256) * 256 + v % 256 == v) by (nonlinear_arith)
        requires
            v < 65536,
    ;
}

/// The server name of a ClientHello whose first extension names the host
/// `name` (valid UTF-8, 1 to 65530 bytes) is that name, whatever its
/// session id, cipher suites and compression methods, and whatever
/// extensions follow.
pub proof fn lemma_sni_of_client_hello(
    head: Seq<u8>,
    session_id: Seq<u8>,
    cipher_suites: Seq<u8>,
    compression: Seq<u8>,
    name: Seq<u8>,
    more: Seq<u8>,
)
    requires
        head.len() == 43,
        head[0] == 0x16,
        session_id.len() < 256,
        cipher_suites.len() < 65536,
        compression.len() < 256,
        1 <= name.len() <= 65530,
        name.len() + 9 + more.len() < 65536,
        valid_utf8(name),
    ensures
        sni_of(
            client_hello(head, session_id, cipher_suites, compression, server_name_extension(name) + more),
        ) == Some(decode_utf8(name)),
{
    let k = session_id.len();
    let cl = cipher_suites.len();
    let ml = compression.len();
    let nl = name.len();
    let ext = server_name_extension(name);
    let exts = ext + more;
    let a0 = head + seq![k as u8];
    let a1 = a0 + session_id;
    let a2 = a1 + be16_bytes_of(cl);
    let a3 = a2 + cipher_suites;
    let a4 = a3 + seq![ml as u8];
    let a5 = a4 + compression;
    let a6 = a5 + be16_bytes_of(exts.len());
    let d = a6 + exts;
    assert(d == client_hello(head, session_id, cipher_suites, compression, exts));
    lemma_be16_bytes_of(cl);
    lemma_be16_bytes_of(nl + 5);
    lemma_be16_bytes_of(nl + 3);
    lemma_be16_bytes_of(nl);
    // The fixed part and the three lengths.
    assert(d[0] == a0[0]);
    assert(d[43] == a0[43]);
    assert(d[43] == k);
    let p1: int = 44 + k as int;
    assert(d[p1] == a2[p1] && d[p1 + 1] == a2[p1 + 1]);
    assert(be16_at(d, p1) == cl);
    let p2: int = p1 + 2 + cl as int;
    assert(d[p2] == a4[p2]);
    assert(d[p2] == ml);
    let p3: int = p2 + 1 + ml as int;
    assert(p3 + 2 == a6.len());
    // The extension.
    let x = a6.len() as int;
    assert forall|i: int| 0 <= i < ext.len() implies d[x + i] == #[trigger] ext[i] by {
        assert(d[x + i] == exts[i]);
        assert(exts[i] == ext[i]);
    }
    assert(ext[0] == 0 && ext[1] == 0);
    assert(be16_at(d, x) == 0);
    assert(ext[2] == be16_bytes_of(nl + 5)[0] && ext[3] == be16_bytes_of(nl + 5)[1]);
    assert(be16_at(d, x + 2) == nl + 5);
    let p = x + 4;
    assert(ext[6] == 0);
    assert(d[p + 2] == 0);
    assert(ext[7] == be16_bytes_of(nl)[0] && ext[8] == be16_bytes_of(nl)[1]);
    assert(be16_at(d, p + 3) == nl);
    let q: int = p + 5;
    assert(d.subrange(q, q + nl) =~= name) by {
        assert forall|i: int| 0 <= i < nl implies d.subrange(q, q + nl)[i] == name[i] by {
            assert(d[q + i] == ext[9 + i]);
        }
    }
    assert(read_server_name(d, p, (nl + 5) as int) == Some(decode_utf8(name)));
}

proof fn lemma_read_server_name_shift(a: Seq<u8>, b: Seq<u8>, r: Seq<u8>, i: int, m: int)
    requires
        0 <= i,
    ensures
        read_server_name(a + r, a.len() + i, m) == read_server_name(b + r, b.len() + i, m),
{
    let da = a + r;
    let db = b + r;
    let pa = a.len() + i;
    let pb = b.len() + i;
    if pa + 5 <= da.len() {
        assert(da[pa + 2] == db[pb + 2]);
        assert(da[pa + 3] == db[pb + 3] && da[pa + 4] == db[pb + 4]);
        let nl = be16_at(da, pa + 3) as int;
        if nl > 0 && pa + 5 + nl <= da.len() {
            assert(da.subrange(pa + 5, pa + 5 + nl) =~= db.subrange(pb + 5, pb + 5 + nl)) by {
                assert forall|x: int| 0 <= x < nl implies #[trigger] da.subrange(pa + 5, pa + 5 + nl)[x]
                    == db.subrange(pb + 5, pb + 5 + nl)[x] by {
                    assert(da[pa + 5 + x] == r[i + 5 + x]);
                    assert(db[pb + 5 + x] == r[i + 5 + x]);
                }
            }
        }
    }
}

/// The extension scan reads only what lies at and after its start: the
/// same bytes after two different prefixes give the same server name.
proof fn lemma_sni_in_extensions_shift(a: Seq<u8>, b: Seq<u8>, r: Seq<u8>, i: int)
    requires
        0 <= i,
    ensures
        sni_in_extensions(a + r, a.len() + i) == sni_in_extensions(b + r, b.len() + i),
    decreases r.len() - i,
{
    let da = a + r;
    let db = b + r;
    let pa = a.len() + i;
    let pb = b.len() + i;
    if pa + 4 <= da.len() {
        assert(da[pa] == db[pb] && da[pa + 1] == db[pb + 1]);
        assert(da[pa + 2] == db[pb + 2] && da[pa + 3] == db[pb + 3]);
        let len = be16_at(da, pa + 2) as int;
        lemma_read_server_name_shift(a, b, r, i + 4, len);
        if pa + 4 + len <= da.len() {
            lemma_sni_in_extensions_shift(a, b, r, i + 4 + len);
        }
    }
}

/// The server name found does not depend on the session id: a ClientHello
/// read with a session id of any length gives what it gives with none.
pub proof fn lemma_sni_ignores_session_id(head: Seq<u8>, session_id: Seq<u8>, rest: Seq<u8>)
    requires
        head.len() == 43,
        session_id.len() < 256,
    ensures
        sni_of(head + seq![session_id.len() as u8] + session_id + rest) == sni_of(head + seq![0u8] + rest),
{
    let k = session_id.len();
    let a = head + seq![k as u8] + session_id;
    let b = head + seq![0u8];
    let d1 = a + rest;
    let d0 = b + rest;
    assert(head + seq![k as u8] + session_id + rest == d1);
    assert(head + seq![0u8] + rest == d0);
    assert(d1[0] == d0[0]);
    assert(d1[43] == k && d0[43] == 0);
    let m = rest.len() as int;
    let la = a.len() as int;
    let lb = b.len() as int;
    assert(d1.len() == la + m && d0.len() == lb + m);
    if 2 <= m {
        assert(d1[la] == rest[0] && d0[lb] == rest[0]);
        assert(d1[la + 1] == rest[1] && d0[lb + 1] == rest[1]);
        let cl = be16_at(rest, 0) as int;
        assert(be16_at(d1, la) == cl && be16_at(d0, lb) == cl);
        let j = 2 + cl;
        if j + 1 <= m {
            assert(d1[la + j] == rest[j] && d0[lb + j] == rest[j]);
            let i = j + 1 + rest[j];
            if i + 2 <= m {
                lemma_sni_in_extensions_shift(a, b, rest, i + 2);
            }
        }
    }
}

/// An extension of another type than `server_name` ahead of the others
/// changes nothing: the server name is the one the rest gives.
pub proof fn lemma_sni_skips_other_extensions(
    head: Seq<u8>,
    session_id: Seq<u8>,
    cipher_suites: Seq<u8>,
    compression: Seq<u8>,
    ext_type: u16,
    ext_data: Seq<u8>,
    rest: Seq<u8>,
)
    requires
        head.len() == 43,
        head[0] == 0x16,
        session_id.len() < 256,
        cipher_suites.len() < 65536,
        compression.len() < 256,
        ext_type != 0,
        4 + ext_data.len() + rest.len() < 65536,
    ensures
        sni_of(
            client_hello(
                head,
                session_id,
                cipher_suites,
                compression,
                be16_bytes_of(ext_type as nat) + be16_bytes_of(ext_data.len()) + ext_data + rest,
            ),
        ) == sni_of(client_hello(head, session_id, cipher_suites, compression, rest)),
{
    let k = session_id.len();
    let cl = cipher_suites.len();
    let ml = compression.len();
    let ext = be16_bytes_of(ext_type as nat) + be16_bytes_of(ext_data.len()) + ext_data;
    let exts1 = ext + rest;
    let pre = head + seq![k as u8] + session_id + be16_bytes_of(cl) + cipher_suites + seq![ml as u8]
        + compression;
    let a = pre + be16_bytes_of(exts1.len()) + ext;
    let b = pre + be16_bytes_of(rest.len());
    let d1 = a + rest;
    let d0 = b + rest;
    assert(client_hello(head, session_id, cipher_suites, compression, exts1) =~= d1);
    assert(client_hello(head, session_id, cipher_suites, compression, rest) =~= d0);
    lemma_be16_bytes_of(cl);
    lemma_be16_bytes_of(ext_type as nat);
    lemma_be16_bytes_of(ext_data.len());
    let p1: int = 44 + k as int;
    let p2: int = p1 + 2 + cl as int;
    let p3: int = p2 + 1 + ml as int;
    let x0: int = p3 + 2;
    assert(pre.len() == p3);
    assert forall|i: int| 0 <= i < pre.len() implies d1[i] == pre[i] && d0[i] == pre[i] by {}
    assert(pre[0] == 0x16 && pre[43] == k);
    assert(d1[43] == k && d0[43] == k);
    assert(pre[p1] == be16_bytes_of(cl)[0] && pre[p1 + 1] == be16_bytes_of(cl)[1]);
    assert(be16_at(d1, p1) == cl && be16_at(d0, p1) == cl);
    assert(pre[p2] == ml);
    // Both scans start at `x0`; the first meets the other extension there.
    assert forall|i: int| 0 <= i < ext.len() implies d1[x0 + i] == #[trigger] ext[i] by {}
    assert(be16_at(d1, x0) == ext_type);
    assert(be16_at(d1, x0 + 2) == ext_data.len());
    assert(x0 + 4 + ext_data.len() == a.len());
    assert(sni_in_extensions(d1, x0) == sni_in_extensions(d1, a.len() as int));
    assert(x0 == b.len());
    lemma_sni_in_extensions_shift(a, b, rest, 0);
}

pub struct SniExtractor;

impl SniExtractor {
    /// The host name that a TLS ClientHello asks for.
    pub fn extract_sni(tls_data: &[u8]) -> (r: Option<String>)
        ensures
            opt_view(r) == sni_of(tls_data@),
    {
        let d = tls_data;
        let mut pos: usize = 0;
        match read_u8(d, &mut pos) {
            Some(content_type) => {
                if content_type != 0x16 {
                    return None;
                }
            },
            None => {
                return None;
            },
        }
        // Record version and length, handshake type and length, client
        // version, random.
        if !skip_bytes(d, &mut pos, 2) {
            return None;
        }
        if !skip_bytes(d, &mut pos, 2) {
            return None;
        }
        if !skip_bytes(d, &mut pos, 4) {
            return None;
        }
        if !skip_bytes(d, &mut pos, 2) {
            return None;
        }
        if !skip_bytes(d, &mut pos, 32) {
            return None;
        }
        let session_id_len = match read_u8(d, &mut pos) {
            Some(v) => v,
            None => {
                return None;
            },
        };
        if !skip_bytes(d, &mut pos, session_id_len as usize) {
            return None;
        }
        let cipher_suites_len = match read_u16_be(d, &mut pos) {
            Some(v) => v,
            None => {
                return None;
            },
        };
        if !skip_bytes(d, &mut pos, cipher_suites_len as usize) {
            return None;
        }
        let compression_methods_len = match read_u8(d, &mut pos) {
            Some(v) => v,
            None => {
                return None;
            },
        };
        if !skip_bytes(d, &mut pos, compression_methods_len as usize) {
            return None;
        }
        if read_u16_be(d, &mut pos).is_none() {
            return None;
        }
        assert(sni_of(d@) == sni_in_extensions(d@, pos as int));
        loop
            invariant
                d@ == tls_data@,
                pos <= d@.len(),
                sni_of(d@) == sni_in_extensions(d@, pos as int),
            decreases d@.len() - pos,
        {
            let extension_type = match read_u16_be(d, &mut pos) {
                Some(t) => t,
                None => {
                    return None;
                },
            };
            let extension_len = match read_u16_be(d, &mut pos) {
                Some(l) => l as usize,
                None => {
                    return None;
                },
            };
            if extension_type == 0 {
                match Self::parse_server_name_list(d, pos, extension_len) {
                    Some(s) => {
                        return Some(s);
                    },
                    None => {},
                }
            }
            if !skip_bytes(d, &mut pos, extension_len) {
                return None;
            }
        }
    }

    /// The host name in the `server_name` extension data at `start`, of
    /// `max_len` bytes.
    fn parse_server_name_list(d: &[u8], start: usize, max_len: usize) -> (r: Option<String>)
        requires
            start <= d@.len(),
        ensures
            opt_view(r) == read_server_name(d@, start as int, max_len as int),
    {
        if d.len() - start < 5 {
            return None;
        }
        if d[start + 2] != 0 {
            return None;
        }
        let mut pos: usize = start + 3;
        let name_len = match read_u16_be(d, &mut pos) {
            Some(l) => l as usize,
            None => {
                return None;
            },
        };
        if name_len == 0 || name_len + 5 > max_len {
            return None;
        }
        let name_bytes = match read_exact_bytes(d, &mut pos, name_len) {
            Some(b) => b,
            None => {
                return None;
            },
        };
        string_from_utf8(name_bytes)
    }
}

// ---------------------------------------------------------------------------
// DNS
// ---------------------------------------------------------------------------

/// The labels of the name that starts at `p`, up to the terminating zero
/// or the first compression pointer; `None` when the name runs past the end.
pub open spec fn dns_labels_from(d: Seq<u8>, p: int) -> Option<Seq<Seq<u8>>>
    decreases d.len() - p,
{
    if p < 0 || p >= d.len() {
        None
    } else {
        let len = d[p] as int;
        if len == 0 || len >= 0xC0 {
            Some(Seq::empty())
        } else if p + 1 + len > d.len() {
            None
        } else {
            match dns_labels_from(d, p + 1 + len) {
                Some(rest) => Some(seq![d.subrange(p + 1, p + 1 + len)] + rest),
                None => None,
            }
        }
    }
}

pub open spec fn lossy_labels(labels: Seq<Seq<u8>>) -> Seq<Seq<char>>
    decreases labels.len(),
{
    if labels.len() == 0 {
        Seq::empty()
    } else {
        lossy_labels(labels.drop_last()).push(utf8_lossy(labels.last()))
    }
}

/// The domain a DNS query asks about: a query (QR bit clear) with at least
/// one question, whose first name has at least one label; the labels are
/// joined with dots.
pub open spec fn dns_query_domain(d: Seq<u8>) -> Option<Seq<char>> {
    if d.len() < 12 || be16_at(d, 2) / 32768 != 0 || be16_at(d, 4) == 0 {
        None
    } else {
        match dns_labels_from(d, 12) {
            Some(labels) => if labels.len() == 0 {
                None
            } else {
                Some(join(lossy_labels(labels), "."@))
            },
            None => None,
        }
    }
}

/// The answer that blocks a query: the query with the QR bit set, the
/// response code 3 (no such name) and one answer, followed by an A record
/// for 0.0.0.0 that points back at the question's name, with TTL 120.
pub open spec fn blocked_dns_reply(q: Seq<u8>) -> Seq<u8> {
    q.update(2, q[2] | 0x80u8).update(3, 0x83u8).update(6, 0u8).update(7, 1u8) + seq![
        0xC0u8,
        0x0Cu8,
        0x00u8,
        0x01u8,
        0x00u8,
        0x01u8,
        0x00u8,
        0x00u8,
        0x00u8,
        0x78u8,
        0x00u8,
        0x04u8,
        0x00u8,
        0x00u8,
        0x00u8,
        0x00u8,
    ]
}

pub struct DnsParser;

impl DnsParser {
    /// The domain a DNS query asks about.
    pub fn extract_domain(dns_packet: &[u8]) -> (r: Option<String>)
        ensures
            opt_view(r) == dns_query_domain(dns_packet@),
    {
        let d = dns_packet;
        if d.len() < 12 {
            return None;
        }
        let flags = be16_at_exec(d, 2);
        let qr = (flags >> 15u16) & 0x01u16;
        assert(qr == flags / 32768) by (bit_vector)
            requires
                qr == (flags >> 15u16) & 0x01u16,
        ;
        if qr != 0 {
            return None;
        }
        let qdcount = be16_at_exec(d, 4);
        if qdcount == 0 {
            return None;
        }
        let mut pos: usize = 12;
        let mut labels: Vec<Vec<u8>> = Vec::new();
        let ghost views: Seq<Seq<u8>> = Seq::empty();
        loop
            invariant
                d@ == dns_packet@,
                12 <= pos <= d@.len(),
                views.len() == labels@.len(),
                forall|i: int| 0 <= i < views.len() ==> #[trigger] views[i] == labels@[i]@,
                dns_labels_from(d@, 12) == match dns_labels_from(d@, pos as int) {
                    Some(rest) => Some(views + rest),
                    None => None::<Seq<Seq<u8>>>,
                },
            ensures
                dns_labels_from(d@, 12) == Some(views),
                views.len() == labels@.len(),
                forall|i: int| 0 <= i < views.len() ==> #[trigger] views[i] == labels@[i]@,
            decreases d@.len() - pos,
        {
            if pos >= d.len() {
                return None;
            }
            let ghost at = pos as int;
            let len = d[pos] as usize;
            if len == 0 || len >= 0xC0 {
                assert(views + Seq::<Seq<u8>>::empty() =~= views);
                break;
            }
            pos = pos + 1;
            if len > d.len() - pos {
                return None;
            }
            let label = copy_range(d, pos, pos + len);
            proof {
                let lab = d@.subrange(pos as int, pos + len);
                let next = pos + len;
                match dns_labels_from(d@, next) {
                    Some(rest) => {
                        assert(views.push(lab) + rest =~= views + (seq![lab] + rest));
                    },
                    None => {},
                }
                views = views.push(lab);
            }
            labels.push(label);
            pos = pos + len;
        }
        if labels.len() == 0 {
            return None;
        }
        let mut texts: Vec<String> = Vec::new();
        let mut i: usize = 0;
        while i < labels.len()
            invariant
                d@ == dns_packet@,
                i <= labels@.len(),
                views.len() == labels@.len(),
                dns_labels_from(d@, 12) == Some(views),
                views.len() > 0,
                forall|j: int| 0 <= j < views.len() ==> #[trigger] views[j] == labels@[j]@,
                texts@.map_values(|p: String| p@) == lossy_labels(views.take(i as int)),
            decreases labels@.len() - i,
        {
            let t = string_from_utf8_lossy(labels[i].as_slice());
            proof {
                assert(views.take(i + 1).drop_last() =~= views.take(i as int));
                assert(views.take(i + 1).last() == labels@[i as int]@);
                assert(texts@.push(t).map_values(|p: String| p@) =~= texts@.map_values(
                    |p: String| p@,
                ).push(t@));
            }
            texts.push(t);
            i = i + 1;
        }
        assert(views.take(views.len() as int) =~= views);
        let domain = join_strings(&texts, ".");
        Some(domain)
    }

    /// The answer that blocks a DNS query; `None` for a packet shorter than
    /// a DNS header.
    pub fn build_blocked_response(original: &[u8]) -> (r: Option<Vec<u8>>)
        ensures
            original@.len() < 12 ==> r is None,
            original@.len() >= 12 ==> (r matches Some(v) && v@ == blocked_dns_reply(original@)),
    {
        if original.len() < 12 {
            return None;
        }
        let mut response = copy_range(original, 0, original.len());
        let b2 = response[2] | 0x80u8;
        response.set(2, b2);
        response.set(3, 0x83u8);
        response.set(6, 0x00u8);
        response.set(7, 0x01u8);
        let additional: [u8; 16] = [
            0xC0,
            0x0C,
            0x00,
            0x01,
            0x00,
            0x01,
            0x00,
            0x00,
            0x00,
            0x78,
            0x00,
            0x04,
            0x00,
            0x00,
            0x00,
            0x00,
        ];
        let ghost base = response@;
        let mut k: usize = 0;
        while k < 16
            invariant
                k <= 16,
                additional@ == seq![
                    0xC0u8,
                    0x0Cu8,
                    0x00u8,
                    0x01u8,
                    0x00u8,
                    0x01u8,
                    0x00u8,
                    0x00u8,
                    0x00u8,
                    0x78u8,
                    0x00u8,
                    0x04u8,
                    0x00u8,
                    0x00u8,
                    0x00u8,
                    0x00u8,
                ],
                response@ == base + additional@.take(k as int),
            decreases 16 - k,
        {
            response.push(additional[k]);
            k = k + 1;
        }
        assert(original@.subrange(0, original@.len() as int) =~= original@);
        assert(additional@.take(16) =~= additional@);
        assert(response@ =~= blocked_dns_reply(original@));
        Some(response)
    }
}

fn be16_at_exec(d: &[u8], i: usize) -> (r: u16)
    requires
        i + 2 <= d@.len(),
    ensures
        r == be16_at(d@, i as int),
{
    (d[i] as u16) * 256 + (d[i + 1] as u16)
}

} // verus!
