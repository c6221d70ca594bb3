//! Address translation for the tunnel: a table of mappings keyed by
//! (external address, external port, protocol), external ports handed out
//! in turn from 40000 to 60000, and the IPv4/TCP/UDP header readers.
use vstd::prelude::*;
use std::collections::HashMap;
use vstd::std_specs::iter::IteratorSpec;
use crate::models::unix_time_nanos;
use crate::text::{
    chars_split, chars_views, dec, index_of_char, lemma_dec_digits, lemma_index_of_char,
    lemma_parse_dec, parse_unsigned, parse_unsigned_chars, push_char, push_str, split_char,
    str_to_chars, u64_to_dec, is_digit,
};

verus! {

broadcast use {vstd::std_specs::hash::group_hash_axioms, vstd::string::group_string_axioms};

#[derive(Clone, Copy, Debug, PartialEq, Eq, Structural)]
pub enum Protocol {
    TCP,
    UDP,
}

#[derive(Clone, Copy)]
pub struct NatEntry {
    pub internal_ip: u32,
    pub internal_port: u16,
    pub external_port: u16,
    pub external_ip: u32,
    pub protocol: Protocol,
    pub target_ip: u32,
    pub target_port: u16,
    pub created_at: u64,
    pub last_active: u64,
}

pub struct NatManager {
    mappings: HashMap<u64, NatEntry>,
    next_port: u16,
}

/// The first external port handed out, and the last before the turn wraps.
pub open spec fn first_port() -> u16 {
    40000
}

pub open spec fn last_port() -> u16 {
    60000
}

/// The port handed out after `p`.
pub open spec fn port_after(p: u16) -> u16 {
    if p >= 60000 {
        40000
    } else {
        (p + 1) as u16
    }
}

pub open spec fn proto_bits(p: Protocol) -> u64 {
    match p {
        Protocol::TCP => 0,
        Protocol::UDP => 1,
    }
}

/// The table key of (address, port, protocol): the address shifted 16 bits
/// left, or-ed with the port and with the protocol bit shifted 32 bits left.
/// (The protocol bit overlaps bit 16 of the address.)
pub open spec fn nat_key(ip: u32, port: u16, protocol: Protocol) -> u64 {
    ((ip as u64) << 16u64) | (port as u64) | (proto_bits(protocol) << 32u64)
}

pub open spec fn internal_match(e: NatEntry, ip: u32, port: u16, protocol: Protocol) -> bool {
    e.internal_ip == ip && e.internal_port == port && e.protocol == protocol
}

/// `e` with its last activity set to `now`.
pub open spec fn touched(e: NatEntry, now: u64) -> NatEntry {
    NatEntry { last_active: now, ..e }
}

/// Seconds since the Unix epoch, now.
fn unix_time_secs() -> u64 {
    let nanos = unix_time_nanos();
    let secs = nanos / 1_000_000_000;
    if secs > u64::MAX as u128 {
        u64::MAX
    } else {
        secs as u64
    }
}

impl NatManager {
    pub closed spec fn spec_mappings(&self) -> Map<u64, NatEntry> {
        self.mappings@
    }

    pub closed spec fn spec_next_port(&self) -> u16 {
        self.next_port
    }

    /// The next port to hand out lies in [40000, 60000].
    pub open spec fn wf(&self) -> bool {
        first_port() <= self.spec_next_port() <= last_port()
    }

    pub fn new() -> (r: Self)
        ensures
            r.wf(),
            r.spec_mappings() == Map::<u64, NatEntry>::empty(),
            r.spec_next_port() == 40000,
    {
        NatManager { mappings: HashMap::new(), next_port: 40000 }
    }

    fn make_key(ip: u32, port: u16, protocol: Protocol) -> (r: u64)
        ensures
            r == nat_key(ip, port, protocol),
    {
        let proto: u64 = match protocol {
            Protocol::TCP => 0u64,
            Protocol::UDP => 1u64,
        };
        ((ip as u64) << 16u64) | (port as u64) | (proto << 32u64)
    }

    /// Creates a mapping at the time `now`: it takes the next external port
    /// and is stored under (external address, that port, protocol).
    pub fn create_mapping_at(
        &mut self,
        internal_ip: u32,
        internal_port: u16,
        external_ip: u32,
        protocol: Protocol,
        target_ip: u32,
        target_port: u16,
        now: u64,
    ) -> (r: Option<NatEntry>)
        requires
            old(self).wf(),
        ensures
            final(self).wf(),
            r == Some(
                NatEntry {
                    internal_ip,
                    internal_port,
                    external_port: old(self).spec_next_port(),
                    external_ip,
                    protocol,
                    target_ip,
                    target_port,
                    created_at: now,
                    last_active: now,
                },
            ),
            final(self).spec_next_port() == port_after(old(self).spec_next_port()),
            final(self).spec_mappings() == old(self).spec_mappings().insert(
                nat_key(external_ip, old(self).spec_next_port(), protocol),
                r.unwrap(),
            ),
    {
        let port = self.next_port;
        self.next_port = if self.next_port >= 60000 {
            40000
        } else {
            self.next_port + 1
        };
        let entry = NatEntry {
            internal_ip,
            internal_port,
            external_port: port,
            external_ip,
            protocol,
            target_ip,
            target_port,
            created_at: now,
            last_active: now,
        };
        let key = Self::make_key(external_ip, port, protocol);
        self.mappings.insert(key, entry);
        Some(entry)
    }

    /// Creates a mapping now.
    pub fn create_mapping(
        &mut self,
        internal_ip: u32,
        internal_port: u16,
        external_ip: u32,
        protocol: Protocol,
        target_ip: u32,
        target_port: u16,
    ) -> (r: Option<NatEntry>)
        requires
            old(self).wf(),
        ensures
            final(self).wf(),
            r is Some,
            r.unwrap().internal_ip == internal_ip,
            r.unwrap().internal_port == internal_port,
            r.unwrap().external_port == old(self).spec_next_port(),
            r.unwrap().external_ip == external_ip,
            r.unwrap().protocol == protocol,
            r.unwrap().target_ip == target_ip,
            r.unwrap().target_port == target_port,
            r.unwrap().created_at == r.unwrap().last_active,
            final(self).spec_next_port() == port_after(old(self).spec_next_port()),
            final(self).spec_mappings() == old(self).spec_mappings().insert(
                nat_key(external_ip, old(self).spec_next_port(), protocol),
                r.unwrap(),
            ),
    {
        let now = unix_time_secs();
        self.create_mapping_at(
            internal_ip,
            internal_port,
            external_ip,
            protocol,
            target_ip,
            target_port,
            now,
        )
    }

    /// Looks a mapping up by its external side at the time `now`, and
    /// records the activity.
    pub fn find_by_external_at(
        &mut self,
        external_ip: u32,
        external_port: u16,
        protocol: Protocol,
        now: u64,
    ) -> (r: Option<NatEntry>)
        ensures
            final(self).spec_next_port() == old(self).spec_next_port(),
            ({
                let key = nat_key(external_ip, external_port, protocol);
                if old(self).spec_mappings().contains_key(key) {
                    &&& r == Some(touched(old(self).spec_mappings()[key], now))
                    &&& final(self).spec_mappings() == old(self).spec_mappings().insert(
                        key,
                        r.unwrap(),
                    )
                } else {
                    &&& r is None
                    &&& final(self).spec_mappings() == old(self).spec_mappings()
                }
            }),
    {
        let key = Self::make_key(external_ip, external_port, protocol);
        let found = match self.mappings.get(&key) {
            Some(e) => Some(*e),
            None => None,
        };
        match found {
            Some(e) => {
                let entry = NatEntry { last_active: now, ..e };
                self.mappings.insert(key, entry);
                Some(entry)
            },
            None => None,
        }
    }

    /// Looks a mapping up by its external side now, and records the
    /// activity.
    pub fn find_by_external(&mut self, external_ip: u32, external_port: u16, protocol: Protocol) -> (r:
        Option<NatEntry>)
        ensures
            final(self).spec_next_port() == old(self).spec_next_port(),
            ({
                let key = nat_key(external_ip, external_port, protocol);
                if old(self).spec_mappings().contains_key(key) {
                    &&& r is Some
                    &&& r == Some(touched(old(self).spec_mappings()[key], r.unwrap().last_active))
                    &&& final(self).spec_mappings() == old(self).spec_mappings().insert(
                        key,
                        r.unwrap(),
                    )
                } else {
                    &&& r is None
                    &&& final(self).spec_mappings() == old(self).spec_mappings()
                }
            }),
    {
        let now = unix_time_secs();
        self.find_by_external_at(external_ip, external_port, protocol, now)
    }

    /// Looks a mapping up by its internal side at the time `now`; the table
    /// is left as it is. Which of several matching mappings comes back is
    /// not fixed.
    pub fn find_by_internal_at(
        &self,
        internal_ip: u32,
        internal_port: u16,
        protocol: Protocol,
        now: u64,
    ) -> (r: Option<NatEntry>)
        ensures
            r is None <==> forall|k: u64|
                #[trigger] self.spec_mappings().contains_key(k) ==> !internal_match(
                    self.spec_mappings()[k],
                    internal_ip,
                    internal_port,
                    protocol,
                ),
            r matches Some(e) ==> exists|k: u64|
                #[trigger] self.spec_mappings().contains_key(k) && internal_match(
                    self.spec_mappings()[k],
                    internal_ip,
                    internal_port,
                    protocol,
                ) && e == touched(self.spec_mappings()[k], now),
    {
        let values = self.mappings.values();
        let ghost all = values.remaining().unref();
        let ghost mut seen: int = 0;
        for e in it: values
            invariant
                it.seq().unref() == all,
                seen == it.index(),
                all.to_set() == self.mappings@.values(),
                forall|j: int|
                    0 <= j < it.index() ==> !internal_match(
                        *it.seq()[j],
                        internal_ip,
                        internal_port,
                        protocol,
                    ),
        {
            if e.internal_ip == internal_ip && e.internal_port == internal_port && e.protocol
                == protocol {
                proof {
                    assert(*e == all[seen]);
                    assert(all.contains(*e));
                    assert(self.mappings@.values().contains(*e));
                    let k = choose|k: u64|
                        self.mappings@.contains_key(k) && self.mappings@[k] == *e;
                    assert(self.spec_mappings().contains_key(k));
                }
                return Some(NatEntry { last_active: now, ..*e });
            }
            proof {
                seen = seen + 1;
            }
        }
        proof {
            assert forall|k: u64| #[trigger]
                self.mappings@.contains_key(k) implies !internal_match(
                self.mappings@[k],
                internal_ip,
                internal_port,
                protocol,
            ) by {
                assert(self.mappings@.values().contains(self.mappings@[k]));
                assert(all.to_set().contains(self.mappings@[k]));
                let j = choose|j: int| 0 <= j < all.len() && all[j] == self.mappings@[k];
                assert(0 <= j < seen);
            }
        }
        None
    }

    /// Looks a mapping up by its internal side now.
    pub fn find_by_internal(&self, internal_ip: u32, internal_port: u16, protocol: Protocol) -> (r:
        Option<NatEntry>)
        ensures
            r is None <==> forall|k: u64|
                #[trigger] self.spec_mappings().contains_key(k) ==> !internal_match(
                    self.spec_mappings()[k],
                    internal_ip,
                    internal_port,
                    protocol,
                ),
            r matches Some(e) ==> exists|k: u64|
                #[trigger] self.spec_mappings().contains_key(k) && internal_match(
                    self.spec_mappings()[k],
                    internal_ip,
                    internal_port,
                    protocol,
                ) && e == touched(self.spec_mappings()[k], e.last_active),
    {
        let now = unix_time_secs();
        self.find_by_internal_at(internal_ip, internal_port, protocol, now)
    }

    /// Removes the mapping stored under (address, port, protocol); `true`
    /// when there was one.
    pub fn remove_mapping(&mut self, external_ip: u32, external_port: u16, protocol: Protocol) -> (r:
        bool)
        ensures
            r == old(self).spec_mappings().contains_key(
                nat_key(external_ip, external_port, protocol),
            ),
            final(self).spec_mappings() == old(self).spec_mappings().remove(
                nat_key(external_ip, external_port, protocol),
            ),
            final(self).spec_next_port() == old(self).spec_next_port(),
    {
        let key = Self::make_key(external_ip, external_port, protocol);
        let removed = self.mappings.remove(&key);
        removed.is_some()
    }
}

/// An entry whose last activity lies less than `max_age_secs` before `now`.
pub open spec fn is_fresh(e: NatEntry, now: u64, max_age_secs: u64) -> bool {
    now - e.last_active < max_age_secs
}

/// Every entry of `m` was last active at or before `now`.
pub open spec fn none_after(m: Map<u64, NatEntry>, now: u64) -> bool {
    forall|k: u64| #[trigger] m.contains_key(k) ==> m[k].last_active <= now
}

/// `after` holds exactly the entries of `before` that are fresh at `now`.
pub open spec fn kept_fresh(
    before: Map<u64, NatEntry>,
    after: Map<u64, NatEntry>,
    now: u64,
    max_age_secs: u64,
) -> bool {
    &&& forall|k: u64| #[trigger]
        after.contains_key(k) <==> (before.contains_key(k) && is_fresh(
            before[k],
            now,
            max_age_secs,
        ))
    &&& forall|k: u64| #[trigger] after.contains_key(k) ==> after[k] == before[k]
}

/// A cleanup with the clock reading `now`: it goes ahead (`done`) exactly
/// when no entry of `before` was active after `now`, and then keeps the
/// fresh entries; otherwise `after` is `before`.
pub open spec fn cleanup_outcome(
    before: Map<u64, NatEntry>,
    after: Map<u64, NatEntry>,
    now: u64,
    max_age_secs: u64,
    done: bool,
) -> bool {
    &&& done == none_after(before, now)
    &&& done ==> kept_fresh(before, after, now, max_age_secs)
    &&& !done ==> after == before
}

impl NatManager {
    /// Whether every entry was last active at or before `now`.
    fn none_active_after(&self, now: u64) -> (r: bool)
        ensures
            r == none_after(self.spec_mappings(), now),
    {
        let values = self.mappings.values();
        let ghost all = values.remaining().unref();
        let ghost mut seen: int = 0;
        for e in it: values
            invariant
                it.seq().unref() == all,
                seen == it.index(),
                all.to_set() == self.mappings@.values(),
                forall|j: int| 0 <= j < seen ==> (#[trigger] all[j]).last_active <= now,
        {
            if e.last_active > now {
                proof {
                    assert(*e == all[seen]);
                    assert(all.contains(*e));
                    assert(self.mappings@.values().contains(*e));
                    let k = choose|k: u64|
                        self.mappings@.contains_key(k) && self.mappings@[k] == *e;
                    assert(self.spec_mappings().contains_key(k));
                }
                return false;
            }
            proof {
                seen = seen + 1;
            }
        }
        proof {
            assert forall|k: u64| #[trigger]
                self.mappings@.contains_key(k) implies self.mappings@[k].last_active <= now by {
                assert(self.mappings@.values().contains(self.mappings@[k]));
                assert(all.to_set().contains(self.mappings@[k]));
                let j = choose|j: int| 0 <= j < all.len() && all[j] == self.mappings@[k];
                assert(0 <= j < seen);
            }
        }
        true
    }

    /// Drops, at the time `now`, every mapping whose last activity lies
    /// `max_age_secs` or more in the past.
    pub fn cleanup_stale_at(&mut self, max_age_secs: u64, now: u64)
        requires
            none_after(old(self).spec_mappings(), now),
        ensures
            final(self).spec_next_port() == old(self).spec_next_port(),
            kept_fresh(old(self).spec_mappings(), final(self).spec_mappings(), now, max_age_secs),
    {
        let mut kept: HashMap<u64, NatEntry> = HashMap::new();
        let keys = self.mappings.keys();
        let ghost all = keys.remaining().unref();
        let ghost mut seen: int = 0;
        for k in it: keys
            invariant
                it.seq().unref() == all,
                seen == it.index(),
                all.to_set() == self.mappings@.dom(),
                none_after(self.mappings@, now),
                forall|x: u64| #[trigger]
                    kept@.contains_key(x) ==> self.mappings@.contains_key(x) && is_fresh(
                        self.mappings@[x],
                        now,
                        max_age_secs,
                    ) && kept@[x] == self.mappings@[x],
                forall|j: int|
                    #![trigger all[j]]
                    0 <= j < seen && is_fresh(self.mappings@[all[j]], now, max_age_secs)
                        ==> kept@.contains_key(all[j]),
        {
            proof {
                assert(*k == all[seen]);
                assert(all.contains(*k));
                assert(self.mappings@.contains_key(*k));
            }
            match self.mappings.get(k) {
                Some(e) => {
                    if now - e.last_active < max_age_secs {
                        kept.insert(*k, *e);
                    }
                },
                None => {},
            }
            proof {
                seen = seen + 1;
            }
        }
        proof {
            assert forall|x: u64|
                #[trigger] self.mappings@.contains_key(x) && is_fresh(
                    self.mappings@[x],
                    now,
                    max_age_secs,
                ) implies kept@.contains_key(x) by {
                assert(all.to_set().contains(x));
                let j = choose|j: int| 0 <= j < all.len() && all[j] == x;
                assert(0 <= j < seen);
            }
        }
        self.mappings = kept;
    }

    /// Drops every mapping whose last activity lies `max_age_secs` or more
    /// before the clock's reading. When some mapping was active after that
    /// reading (the clock went back), nothing is dropped and `false` comes
    /// back.
    pub fn cleanup_stale(&mut self, max_age_secs: u64) -> (r: bool)
        ensures
            final(self).spec_next_port() == old(self).spec_next_port(),
            exists|now: u64|
                #[trigger] cleanup_outcome(
                    old(self).spec_mappings(),
                    final(self).spec_mappings(),
                    now,
                    max_age_secs,
                    r,
                ),
    {
        let now = unix_time_secs();
        if self.none_active_after(now) {
            self.cleanup_stale_at(max_age_secs, now);
            assert(cleanup_outcome(old(self).spec_mappings(), self.spec_mappings(), now, max_age_secs, true));
            true
        } else {
            assert(cleanup_outcome(old(self).spec_mappings(), self.spec_mappings(), now, max_age_secs, false));
            false
        }
    }
}

impl Default for NatManager {
    fn default() -> (r: Self)
        ensures
            r.wf(),
            r.spec_mappings() == Map::<u64, NatEntry>::empty(),
            r.spec_next_port() == 40000,
    {
        NatManager::new()
    }
}

/// A mapping stored under its external address, port and protocol is found
/// again by them, unchanged, and by its internal address, port and
/// protocol; a lookup that touches it at any time gives it back with only
/// its last activity changed; once that key is removed it is found no more,
/// and the other mappings stay.
pub proof fn lemma_created_mapping_found(m: Map<u64, NatEntry>, e: NatEntry)
    ensures
        ({
            let k = nat_key(e.external_ip, e.external_port, e.protocol);
            let after = m.insert(k, e);
            &&& after.contains_key(k)
            &&& after[k] == e
            &&& forall|t: u64| #[trigger] touched(after[k], t) == (NatEntry { last_active: t, ..e })
            &&& exists|j: u64|
                #[trigger] after.contains_key(j) && internal_match(
                    after[j],
                    e.internal_ip,
                    e.internal_port,
                    e.protocol,
                )
            &&& !after.remove(k).contains_key(k)
            &&& forall|j: u64| j != k && m.contains_key(j) ==> #[trigger] after.remove(k).contains_key(j)
                && after.remove(k)[j] == m[j]
        }),
{
    let k = nat_key(e.external_ip, e.external_port, e.protocol);
    let after = m.insert(k, e);
    assert(after.contains_key(k) && internal_match(after[k], e.internal_ip, e.internal_port, e.protocol));
}

// ---------------------------------------------------------------------------
// Dotted-quad addresses
// ---------------------------------------------------------------------------

/// The pieces of a dotted address that parse as `u8`, in order; the others
/// are skipped.
pub open spec fn parsed_octets(parts: Seq<Seq<char>>) -> Seq<u8>
    decreases parts.len(),
{
    if parts.len() == 0 {
        Seq::empty()
    } else {
        let front = parsed_octets(parts.drop_last());
        match parse_unsigned(parts.last(), 255) {
            Some(v) => front.push(v as u8),
            None => front,
        }
    }
}

pub open spec fn octets_value(a: u8, b: u8, c: u8, d: u8) -> int {
    a * 16777216 + b * 65536 + c * 256 + d
}

/// `ip_to_u32`: the address whose octets are the pieces of `ip` between dots
/// that read as `u8`, when there are exactly four of them.
pub open spec fn ip_value(ip: Seq<char>) -> Option<u32> {
    let o = parsed_octets(split_char(ip, '.'));
    if o.len() == 4 {
        Some(octets_value(o[0], o[1], o[2], o[3]) as u32)
    } else {
        None
    }
}

/// Octet `i` of `addr`, counted from the least significant.
pub open spec fn octet(addr: u32, i: nat) -> nat {
    if i == 0 {
        (addr % 256) as nat
    } else if i == 1 {
        (addr / 256 % 256) as nat
    } else if i == 2 {
        (addr / 65536 % 256) as nat
    } else {
        (addr / 16777216 % 256) as nat
    }
}

/// `addr` in dotted-quad notation, most significant octet first.
pub open spec fn ip_text(addr: u32) -> Seq<char> {
    dec(octet(addr, 3)) + seq!['.'] + dec(octet(addr, 2)) + seq!['.'] + dec(octet(addr, 1))
        + seq!['.'] + dec(octet(addr, 0))
}

/// Reads a dotted-quad address. Pieces that do not parse as `u8` are
/// skipped, and the address is made of the four that remain, if exactly four
/// do.
pub fn ip_to_u32(ip: &str) -> (r: Option<u32>)
    ensures
        r == ip_value(ip@),
{
    let chars = str_to_chars(ip);
    let parts = chars_split(chars.as_slice(), '.');
    let ghost views = chars_views(parts@);
    let mut octets: Vec<u8> = Vec::new();
    let mut i: usize = 0;
    while i < parts.len()
        invariant
            i <= parts@.len(),
            views == chars_views(parts@),
            views == split_char(ip@, '.'),
            octets@ == parsed_octets(views.take(i as int)),
        decreases parts@.len() - i,
    {
        let part = &parts[i];
        let parsed = parse_unsigned_chars(part.as_slice(), 255);
        proof {
            assert(views.take(i + 1).drop_last() =~= views.take(i as int));
            assert(views.take(i + 1).last() == part@);
        }
        match parsed {
            Some(v) => {
                octets.push(v as u8);
            },
            None => {},
        }
        i = i + 1;
    }
    assert(views.take(parts@.len() as int) =~= views);
    if octets.len() != 4 {
        return None;
    }
    let a = octets[0] as u32;
    let b = octets[1] as u32;
    let c = octets[2] as u32;
    let d = octets[3] as u32;
    let v = (a << 24u32) | (b << 16u32) | (c << 8u32) | d;
    assert(v == a * 16777216 + b * 65536 + c * 256 + d) by (bit_vector)
        requires
            a < 256,
            b < 256,
            c < 256,
            d < 256,
            v == (a << 24u32) | (b << 16u32) | (c << 8u32) | d,
    ;
    Some(v)
}

/// Writes `addr` in dotted-quad notation.
pub fn u32_to_ip(addr: u32) -> (r: String)
    ensures
        r@ == ip_text(addr),
{
    let a = (addr >> 24u32) & 0xFFu32;
    let b = (addr >> 16u32) & 0xFFu32;
    let c = (addr >> 8u32) & 0xFFu32;
    let d = addr & 0xFFu32;
    assert(a == addr / 16777216 % 256 && b == addr / 65536 % 256 && c == addr / 256 % 256 && d
        == addr % 256) by (bit_vector)
        requires
            a == (addr >> 24u32) & 0xFFu32,
            b == (addr >> 16u32) & 0xFFu32,
            c == (addr >> 8u32) & 0xFFu32,
            d == addr & 0xFFu32,
    ;
    let mut s = u64_to_dec(a as u64);
    push_char(&mut s, '.');
    let t = u64_to_dec(b as u64);
    push_str(&mut s, t.as_str());
    push_char(&mut s, '.');
    let t = u64_to_dec(c as u64);
    push_str(&mut s, t.as_str());
    push_char(&mut s, '.');
    let t = u64_to_dec(d as u64);
    push_str(&mut s, t.as_str());
    s
}

/// Splitting a piece that holds no separator gives the piece itself.
pub(crate) proof fn lemma_split_without_sep(x: Seq<char>, c: char)
    requires
        forall|i: int| 0 <= i < x.len() ==> x[i] != c,
    ensures
        split_char(x, c) == seq![x],
{
    lemma_index_of_char(x, c);
}

/// Splitting `x`, a separator and `y`, where `x` holds no separator, gives
/// `x` followed by the pieces of `y`.
pub(crate) proof fn lemma_split_after_piece(x: Seq<char>, y: Seq<char>, c: char)
    requires
        forall|i: int| 0 <= i < x.len() ==> x[i] != c,
    ensures
        split_char(x + seq![c] + y, c) == seq![x] + split_char(y, c),
{
    let s = x + seq![c] + y;
    lemma_index_of_char(s, c);
    assert(s[x.len() as int] == c);
    match index_of_char(s, c) {
        Some(i) => {
            if i < x.len() {
                assert(s[i] == x[i]);
            }
            assert(i == x.len());
            assert(s.take(i) =~= x);
            assert(s.skip(i + 1) =~= y);
        },
        None => {},
    }
}

proof fn lemma_dec_has_no_dot(n: nat)
    ensures
        forall|i: int| 0 <= i < dec(n).len() ==> dec(n)[i] != '.',
{
    lemma_dec_digits(n);
    assert forall|i: int| 0 <= i < dec(n).len() implies dec(n)[i] != '.' by {
        assert(is_digit(dec(n)[i]));
    }
}

pub(crate) proof fn lemma_ip_text_pieces(addr: u32)
    ensures
        split_char(ip_text(addr), '.') == seq![
            dec(octet(addr, 3)),
            dec(octet(addr, 2)),
            dec(octet(addr, 1)),
            dec(octet(addr, 0)),
        ],
{
    let d3 = dec(octet(addr, 3));
    let d2 = dec(octet(addr, 2));
    let d1 = dec(octet(addr, 1));
    let d0 = dec(octet(addr, 0));
    lemma_dec_has_no_dot(octet(addr, 3));
    lemma_dec_has_no_dot(octet(addr, 2));
    lemma_dec_has_no_dot(octet(addr, 1));
    lemma_dec_has_no_dot(octet(addr, 0));
    let tail1 = d1 + seq!['.'] + d0;
    let tail2 = d2 + seq!['.'] + tail1;
    assert(ip_text(addr) =~= d3 + seq!['.'] + tail2);
    lemma_split_without_sep(d0, '.');
    lemma_split_after_piece(d1, d0, '.');
    lemma_split_after_piece(d2, tail1, '.');
    lemma_split_after_piece(d3, tail2, '.');
    assert(split_char(ip_text(addr), '.') =~= seq![d3, d2, d1, d0]);
}

pub(crate) proof fn lemma_parsed_four(a: nat, b: nat, c: nat, d: nat)
    requires
        a < 256,
        b < 256,
        c < 256,
        d < 256,
    ensures
        parsed_octets(seq![dec(a), dec(b), dec(c), dec(d)]) == seq![a as u8, b as u8, c as u8, d as u8],
{
    let parts = seq![dec(a), dec(b), dec(c), dec(d)];
    lemma_parse_dec(a, 255);
    lemma_parse_dec(b, 255);
    lemma_parse_dec(c, 255);
    lemma_parse_dec(d, 255);
    assert(parts.drop_last() =~= seq![dec(a), dec(b), dec(c)]);
    assert(parts.drop_last().drop_last() =~= seq![dec(a), dec(b)]);
    assert(parts.drop_last().drop_last().drop_last() =~= seq![dec(a)]);
    assert(parts.drop_last().drop_last().drop_last().drop_last() =~= Seq::<Seq<char>>::empty());
    reveal_with_fuel(parsed_octets, 5);
    assert(parsed_octets(parts) =~= seq![a as u8, b as u8, c as u8, d as u8]);
}

proof fn lemma_octets_recompose(addr: u32)
    ensures
        octets_value(
            octet(addr, 3) as u8,
            octet(addr, 2) as u8,
            octet(addr, 1) as u8,
            octet(addr, 0) as u8,
        ) == addr,
{
    assert(addr == (addr / 16777216 % 256) * 16777216 + (addr / 65536 % 256) * 65536 + (addr
        / 256 % 256) * 256 + addr % 256) by (bit_vector);
}

/// Reading back the dotted-quad text of an address gives the address.
pub proof fn lemma_ip_roundtrip(addr: u32)
    ensures
        ip_value(ip_text(addr)) == Some(addr),
{
    lemma_ip_text_pieces(addr);
    lemma_parsed_four(octet(addr, 3), octet(addr, 2), octet(addr, 1), octet(addr, 0));
    lemma_octets_recompose(addr);
}

// ---------------------------------------------------------------------------
// Packet headers
// ---------------------------------------------------------------------------

pub struct IpHeader {
    pub header_len: usize,
    pub total_len: u16,
    pub protocol: u8,
    pub src_ip: u32,
    pub dst_ip: u32,
}

pub struct TcpHeader {
    pub src_port: u16,
    pub dst_port: u16,
    pub seq: u32,
    pub ack: u32,
    pub data_offset: usize,
    pub flags: u8,
}

pub struct UdpHeader {
    pub src_port: u16,
    pub dst_port: u16,
    pub len: u16,
}

/// Two bytes read big-endian.
pub open spec fn be16(a: u8, b: u8) -> u16 {
    (a * 256 + b) as u16
}

/// Four bytes read big-endian.
pub open spec fn be32(a: u8, b: u8, c: u8, d: u8) -> u32 {
    (a * 16777216 + b * 65536 + c * 256 + d) as u32
}

pub open spec fn be16_at(p: Seq<u8>, i: int) -> u16 {
    be16(p[i], p[i + 1])
}

pub open spec fn be32_at(p: Seq<u8>, i: int) -> u32 {
    be32(p[i], p[i + 1], p[i + 2], p[i + 3])
}

/// The IPv4 header at the start of `p`: at least 20 bytes, version 4, and
/// no shorter than the header length that its first byte gives (in 32-bit
/// words).
pub open spec fn ipv4_header_of(p: Seq<u8>) -> Option<IpHeader> {
    if p.len() < 20 || p[0] / 16 != 4 || p.len() < (p[0] % 16) * 4 {
        None
    } else {
        Some(
            IpHeader {
                header_len: ((p[0] % 16) * 4) as usize,
                total_len: be16_at(p, 2),
                protocol: p[9],
                src_ip: be32_at(p, 12),
                dst_ip: be32_at(p, 16),
            },
        )
    }
}

/// The TCP header at byte `off` of `p`, when 20 bytes are there.
pub open spec fn tcp_header_at(p: Seq<u8>, off: int) -> Option<TcpHeader> {
    if p.len() < off + 20 {
        None
    } else {
        Some(
            TcpHeader {
                src_port: be16_at(p, off),
                dst_port: be16_at(p, off + 2),
                seq: be32_at(p, off + 4),
                ack: be32_at(p, off + 8),
                data_offset: ((p[off + 12] / 16) * 4) as usize,
                flags: p[off + 13],
            },
        )
    }
}

/// The UDP header at byte `off` of `p`, when 8 bytes are there.
pub open spec fn udp_header_at(p: Seq<u8>, off: int) -> Option<UdpHeader> {
    if p.len() < off + 8 {
        None
    } else {
        Some(
            UdpHeader {
                src_port: be16_at(p, off),
                dst_port: be16_at(p, off + 2),
                len: be16_at(p, off + 4),
            },
        )
    }
}

pub(crate) fn read_be16(p: &[u8], i: usize) -> (r: u16)
    requires
        i + 2 <= p@.len(),
    ensures
        r == be16_at(p@, i as int),
{
    (p[i] as u16) * 256 + (p[i + 1] as u16)
}

pub(crate) fn read_be32(p: &[u8], i: usize) -> (r: u32)
    requires
        i + 4 <= p@.len(),
    ensures
        r == be32_at(p@, i as int),
{
    (p[i] as u32) * 16777216 + (p[i + 1] as u32) * 65536 + (p[i + 2] as u32) * 256 + (p[i
        + 3] as u32)
}

/// Reads the IPv4 header at the start of a packet.
pub fn parse_ipv4_header(packet: &[u8]) -> (r: Option<IpHeader>)
    ensures
        r == ipv4_header_of(packet@),
{
    if packet.len() < 20 {
        return None;
    }
    let b0 = packet[0];
    let version = (b0 >> 4u8) & 0xFu8;
    let ihl = b0 & 0xFu8;
    assert(version == b0 / 16 && ihl == b0 % 16) by (bit_vector)
        requires
            version == (b0 >> 4u8) & 0xFu8,
            ihl == b0 & 0xFu8,
    ;
    if version != 4 {
        return None;
    }
    let header_len = (ihl as usize) * 4;
    if packet.len() < header_len {
        return None;
    }
    Some(
        IpHeader {
            header_len,
            total_len: read_be16(packet, 2),
            protocol: packet[9],
            src_ip: read_be32(packet, 12),
            dst_ip: read_be32(packet, 16),
        },
    )
}

/// Reads the TCP header that follows the IP header.
pub fn parse_tcp_header(packet: &[u8], ip_header: &IpHeader) -> (r: Option<TcpHeader>)
    requires
        ip_header.header_len + 20 <= usize::MAX,
    ensures
        r == tcp_header_at(packet@, ip_header.header_len as int),
{
    let offset = ip_header.header_len;
    if packet.len() < offset + 20 {
        return None;
    }
    let b = packet[offset + 12];
    let hi = b >> 4u8;
    assert(hi == b / 16) by (bit_vector)
        requires
            hi == b >> 4u8,
    ;
    Some(
        TcpHeader {
            src_port: read_be16(packet, offset),
            dst_port: read_be16(packet, offset + 2),
            seq: read_be32(packet, offset + 4),
            ack: read_be32(packet, offset + 8),
            data_offset: (hi as usize) * 4,
            flags: packet[offset + 13],
        },
    )
}

/// Reads the UDP header that follows the IP header.
pub fn parse_udp_header(packet: &[u8], ip_header: &IpHeader) -> (r: Option<UdpHeader>)
    requires
        ip_header.header_len + 8 <= usize::MAX,
    ensures
        r == udp_header_at(packet@, ip_header.header_len as int),
{
    let offset = ip_header.header_len;
    if packet.len() < offset + 8 {
        return None;
    }
    Some(
        UdpHeader {
            src_port: read_be16(packet, offset),
            dst_port: read_be16(packet, offset + 2),
            len: read_be16(packet, offset + 4),
        },
    )
}

} // verus!
