//! The local DNS server: reading the queried name out of a query, and the
//! answer it sends back, pointing refused names at 127.0.0.1.
use vstd::prelude::*;
use crate::engine::{access_check_safe, access_verdict, FilterEngine};
use crate::models::{clock_valid, local_now, opt_view, FilterConfig, LocalClock};
use crate::nat_table::parsed_octets;
use crate::packet::copy_range;
use crate::text::{
    chars_split, chars_views, join, parse_unsigned_chars, push_char, push_str, split_char,
    str_to_chars, string_of,
};

verus! {

broadcast use vstd::string::group_string_axioms;

pub const DNS_PORT: u16 = 53;

/// The address refused names are answered with.
pub const LOCAL_IP: &'static str = "127.0.0.1";

/// The port the DNS server listens on.
pub fn get_dns_port() -> (r: u16)
    ensures
        r == 53,
{
    DNS_PORT
}

// ---------------------------------------------------------------------------
// The queried name
// ---------------------------------------------------------------------------

/// The labels of the name starting at `p`: each length byte followed by
/// that many bytes, up to a zero byte, the end of the data, or a label that
/// would run past the end.
pub open spec fn name_labels(d: Seq<u8>, p: int) -> Seq<Seq<u8>>
    decreases d.len() - p,
{
    if p < 0 || p >= d.len() || d[p] == 0 || p + 1 + d[p] > d.len() {
        Seq::empty()
    } else {
        seq![d.subrange(p + 1, p + 1 + d[p])] + name_labels(d, p + 1 + d[p])
    }
}

/// Bytes read one character each (`b as char`).
pub open spec fn latin1(b: Seq<u8>) -> Seq<char> {
    Seq::new(b.len(), |i: int| b[i] as char)
}

pub open spec fn latin1_labels(ls: Seq<Seq<u8>>) -> Seq<Seq<char>>
    decreases ls.len(),
{
    if ls.len() == 0 {
        Seq::empty()
    } else {
        latin1_labels(ls.drop_last()).push(latin1(ls.last()))
    }
}

/// The queried name of a DNS query: the labels after the 12-byte header,
/// each byte taken as a character, joined by dots.
pub open spec fn query_name(d: Seq<u8>) -> Seq<char> {
    join(latin1_labels(name_labels(d, 12)), "."@)
}

proof fn lemma_latin1_labels_len(ls: Seq<Seq<u8>>)
    ensures
        latin1_labels(ls).len() == ls.len(),
    decreases ls.len(),
{
    if ls.len() > 0 {
        lemma_latin1_labels_len(ls.drop_last());
    }
}

/// Reads the queried name of a DNS query.
pub fn extract_domain_from_dns(data: &[u8]) -> (r: String)
    ensures
        r@ == query_name(data@),
{
    let n = data.len();
    let mut domain = String::new();
    let mut pos: usize = 12;
    let ghost mut done: Seq<Seq<u8>> = Seq::empty();
    loop
        invariant
            n == data@.len(),
            pos >= 12,
            name_labels(data@, 12) == done + name_labels(data@, pos as int),
            domain@ == join(latin1_labels(done), "."@),
            domain@.len() == 0 <==> done.len() == 0,
        ensures
            name_labels(data@, 12) == done,
            domain@ == join(latin1_labels(done), "."@),
        decreases n + 1 - pos,
    {
        if pos >= n {
            assert(done + Seq::<Seq<u8>>::empty() =~= done);
            break;
        }
        let label_len = data[pos] as usize;
        if label_len == 0 || label_len > n - (pos + 1) {
            assert(done + Seq::<Seq<u8>>::empty() =~= done);
            break;
        }
        let ghost at = pos as int;
        pos = pos + 1;
        let ghost label = data@.subrange(pos as int, pos + label_len);
        let ghost old_domain = domain@;
        if !domain.as_str().is_empty() {
            push_char(&mut domain, '.');
        }
        let ghost before = domain@;
        let mut i: usize = 0;
        while i < label_len
            invariant
                pos + label_len <= n,
                n == data@.len(),
                i <= label_len,
                label == data@.subrange(pos as int, pos + label_len),
                domain@ == before + latin1(label.take(i as int)),
            decreases label_len - i,
        {
            push_char(&mut domain, data[pos + i] as char);
            i = i + 1;
            assert(domain@ =~= before + latin1(label.take(i as int)));
        }
        proof {
            reveal_strlit(".");
            assert(label.take(label_len as int) =~= label);
            let nd = done.push(label);
            assert(nd.drop_last() =~= done);
            assert(nd.last() == label);
            assert(latin1_labels(nd) == latin1_labels(done).push(latin1(label)));
            lemma_latin1_labels_len(done);
            lemma_latin1_labels_len(nd);
            if done.len() == 0 {
                assert(latin1_labels(nd) =~= seq![latin1(label)]);
                assert(before =~= Seq::<char>::empty());
                assert(domain@ =~= join(latin1_labels(nd), "."@));
            } else {
                assert(latin1_labels(nd).drop_last() =~= latin1_labels(done));
                assert(latin1_labels(nd).last() == latin1(label));
                assert(before =~= old_domain + "."@);
                assert(join(latin1_labels(nd), "."@) == join(latin1_labels(done), "."@) + "."@
                    + latin1(label));
                assert(domain@ =~= join(latin1_labels(nd), "."@));
            }
            assert(name_labels(data@, at) == seq![label] + name_labels(data@, pos + label_len));
            assert(done + name_labels(data@, at) =~= nd + name_labels(data@, pos + label_len));
            done = nd;
        }
        pos = pos + label_len;
    }
    domain
}

// ---------------------------------------------------------------------------
// The answer
// ---------------------------------------------------------------------------

/// Where the first question of a query ends: five bytes past the first
/// zero byte from offset 12 on, or the end of the data.
pub open spec fn zero_from(d: Seq<u8>, p: int) -> Option<int>
    decreases d.len() - p,
{
    if p < 0 || p >= d.len() {
        None
    } else if d[p] == 0 {
        Some(p)
    } else {
        zero_from(d, p + 1)
    }
}

proof fn lemma_zero_from(d: Seq<u8>, p: int)
    ensures
        zero_from(d, p) matches Some(x) ==> p <= x < d.len(),
    decreases d.len() - p,
{
    if 0 <= p < d.len() && d[p] != 0 {
        lemma_zero_from(d, p + 1);
    }
}

pub open spec fn question_end(d: Seq<u8>) -> int {
    match zero_from(d, 12) {
        Some(p) => p + 5,
        None => d.len() as int,
    }
}

/// Finds where the first question of a query ends.
pub fn find_question_end(data: &[u8]) -> (r: usize)
    requires
        data@.len() + 5 <= usize::MAX,
    ensures
        r == question_end(data@),
{
    let n = data.len();
    let mut pos: usize = 12;
    while pos < n
        invariant
            n == data@.len(),
            n + 5 <= usize::MAX,
            pos >= 12,
            zero_from(data@, 12) == zero_from(data@, pos as int),
        decreases n - pos,
    {
        if data[pos] == 0 {
            return pos + 5;
        }
        pos = pos + 1;
    }
    n
}

/// The answer to the query `q`: its id, flags 0x8180, its question count,
/// one answer when an address is given (none otherwise), no authority or
/// additional records, its first question, then, when the address has
/// exactly four byte parts, an A record for it with TTL 60.
pub open spec fn dns_answer(q: Seq<u8>, blocked_ip: Option<Seq<char>>) -> Seq<u8> {
    if q.len() < 12 {
        q
    } else {
        let ancount = if blocked_ip is Some {
            seq![0u8, 1u8]
        } else {
            seq![0u8, 0u8]
        };
        let head = q.subrange(0, 2) + seq![0x81u8, 0x80u8, q[4], q[5]] + ancount + seq![
            0u8,
            0u8,
            0u8,
            0u8,
        ] + q.subrange(12, question_end(q));
        match blocked_ip {
            Some(ip) => {
                let parts = parsed_octets(split_char(ip, '.'));
                if parts.len() == 4 {
                    head + seq![
                        0xC0u8,
                        0x0Cu8,
                        0x00u8,
                        0x01u8,
                        0x00u8,
                        0x01u8,
                        0x00u8,
                        0x00u8,
                        0x00u8,
                        0x3Cu8,
                        0x00u8,
                        0x04u8,
                    ] + parts
                } else {
                    head
                }
            },
            None => head,
        }
    }
}

/// A query whose first question ends within it (or that is shorter than a
/// header).
pub open spec fn answerable(q: Seq<u8>) -> bool {
    q.len() >= 12 ==> question_end(q) <= q.len()
}

fn append(v: &mut Vec<u8>, b: &[u8])
    ensures
        final(v)@ == old(v)@ + b@,
{
    let ghost v0 = v@;
    let n = b.len();
    let mut i: usize = 0;
    while i < n
        invariant
            n == b@.len(),
            i <= n,
            v@ == v0 + b@.take(i as int),
        decreases n - i,
    {
        v.push(b[i]);
        i = i + 1;
        assert(v@ =~= v0 + b@.take(i as int));
    }
    assert(b@.take(n as int) =~= b@);
}

fn octets_of(ip: &str) -> (r: Vec<u8>)
    ensures
        r@ == parsed_octets(split_char(ip@, '.')),
{
    let chars = str_to_chars(ip);
    let parts = chars_split(chars.as_slice(), '.');
    let ghost views = chars_views(parts@);
    let mut octets: Vec<u8> = Vec::new();
    let mut i: usize = 0;
    while i < parts.len()
        invariant
            i <= parts@.len(),
            views == chars_views(parts@),
            views == split_char(ip@, '.'),
            octets@ == parsed_octets(views.take(i as int)),
        decreases parts@.len() - i,
    {
        let parsed = parse_unsigned_chars(parts[i].as_slice(), 255);
        proof {
            assert(views.take(i + 1).drop_last() =~= views.take(i as int));
        }
        match parsed {
            Some(v) => {
                octets.push(v as u8);
            },
            None => {},
        }
        i = i + 1;
    }
    assert(views.take(parts@.len() as int) =~= views);
    octets
}

/// Builds the answer to a query, pointing it at `blocked_ip` when given.
pub fn build_dns_response(query: &[u8], blocked_ip: Option<&str>) -> (r: Vec<u8>)
    requires
        answerable(query@),
        query@.len() + 5 <= usize::MAX,
    ensures
        r@ == dns_answer(
            query@,
            match blocked_ip {
                Some(s) => Some(s@),
                None => None,
            },
        ),
{
    let n = query.len();
    if n < 12 {
        return copy_range(query, 0, n);
    }
    let mut response: Vec<u8> = copy_range(query, 0, 2);
    response.push(0x81);
    response.push(0x80);
    response.push(query[4]);
    response.push(query[5]);
    match blocked_ip {
        Some(_) => {
            response.push(0x00);
            response.push(0x01);
        },
        None => {
            response.push(0x00);
            response.push(0x00);
        },
    }
    response.push(0x00);
    response.push(0x00);
    response.push(0x00);
    response.push(0x00);
    let qe = find_question_end(query);
    proof {
        lemma_zero_from(query@, 12);
    }
    let question = copy_range(query, 12, qe);
    append(&mut response, question.as_slice());
    let ghost head = response@;
    match blocked_ip {
        Some(ip) => {
            let parts = octets_of(ip);
            if parts.len() == 4 {
                let record: [u8; 12] = [
                    0xC0,
                    0x0C,
                    0x00,
                    0x01,
                    0x00,
                    0x01,
                    0x00,
                    0x00,
                    0x00,
                    0x3C,
                    0x00,
                    0x04,
                ];
                append(&mut response, &record);
                append(&mut response, parts.as_slice());
                assert(record@ =~= seq![
                    0xC0u8,
                    0x0Cu8,
                    0x00u8,
                    0x01u8,
                    0x00u8,
                    0x01u8,
                    0x00u8,
                    0x00u8,
                    0x00u8,
                    0x3Cu8,
                    0x00u8,
                    0x04u8,
                ]);
            }
        },
        None => {},
    }
    assert(response@ =~= dns_answer(
        query@,
        match blocked_ip {
            Some(s) => Some(s@),
            None => None,
        },
    ));
    response
}

/// What the DNS server does with a query.
pub enum DnsServerAction {
    /// Shorter than a header: send nothing.
    Ignore,
    /// Send this answer.
    Answer(Vec<u8>),
    /// Deciding hits a rule that cannot be matched, or the answer cannot be
    /// built from the query.
    Fault,
}

pub enum DnsServerStep {
    Ignore,
    Answer(Seq<u8>),
    Fault,
}

pub open spec fn dns_server_view(a: DnsServerAction) -> DnsServerStep {
    match a {
        DnsServerAction::Ignore => DnsServerStep::Ignore,
        DnsServerAction::Answer(v) => DnsServerStep::Answer(v@),
        DnsServerAction::Fault => DnsServerStep::Fault,
    }
}

/// The server's answer to the query `q` at the clock reading `c`: the
/// queried name is checked as `http://name`; an allowed name gets an
/// answer without records, a refused one an A record for 127.0.0.1.
pub open spec fn dns_server_step(cfg: FilterConfig, q: Seq<u8>, c: LocalClock) -> DnsServerStep {
    if q.len() < 12 {
        DnsServerStep::Ignore
    } else {
        let name = query_name(q);
        let url = "http://"@ + name;
        if !access_check_safe(cfg, name, url, c) || !answerable(q) {
            DnsServerStep::Fault
        } else if access_verdict(cfg, name, url, c).0 {
            DnsServerStep::Answer(dns_answer(q, None))
        } else {
            DnsServerStep::Answer(dns_answer(q, Some(LOCAL_IP@)))
        }
    }
}

fn is_answerable(q: &[u8]) -> (r: bool)
    requires
        q@.len() + 5 <= usize::MAX,
    ensures
        r == answerable(q@),
{
    if q.len() < 12 {
        true
    } else {
        find_question_end(q) <= q.len()
    }
}

/// Decides the answer to a DNS query received by the server.
pub fn dns_query_answer(engine: &FilterEngine, data: &[u8]) -> (r: DnsServerAction)
    requires
        data@.len() + 5 <= usize::MAX,
    ensures
        exists|c: LocalClock|
            clock_valid(c) && dns_server_view(r) == #[trigger] dns_server_step(
                engine.spec_config(),
                data@,
                c,
            ),
{
    if data.len() < 12 {
        let c = local_now();
        assert(dns_server_step(engine.spec_config(), data@, c) == DnsServerStep::Ignore);
        return DnsServerAction::Ignore;
    }
    let domain = extract_domain_from_dns(data);
    let mut url = string_of("http://");
    push_str(&mut url, domain.as_str());
    let verdict = engine.check_access_guarded(domain.as_str(), url.as_str());
    let ok = is_answerable(data);
    let r = match verdict {
        None => DnsServerAction::Fault,
        Some((allowed, _)) => if !ok {
            DnsServerAction::Fault
        } else if allowed {
            DnsServerAction::Answer(build_dns_response(data, None))
        } else {
            DnsServerAction::Answer(build_dns_response(data, Some(LOCAL_IP)))
        },
    };
    proof {
        let cfg = engine.spec_config();
        let c = choose|c: LocalClock|
            clock_valid(c) && #[trigger] access_check_safe(cfg, domain@, url@, c) == (verdict is Some)
                && (verdict matches Some(v) ==> (v.0, opt_view(v.1)) == access_verdict(
                cfg,
                domain@,
                url@,
                c,
            ));
        assert(dns_server_view(r) == dns_server_step(cfg, data@, c));
    }
    r
}

/// A refused name is answered with one A record pointing at 127.0.0.1: the
/// answer is the one an allowed name gets, with its answer count set to
/// one, followed by that record.
pub proof fn lemma_refused_name_points_home(q: Seq<u8>)
    requires
        q.len() >= 12,
    ensures
        dns_answer(q, Some(LOCAL_IP@)) == dns_answer(q, None).update(7, 1u8) + seq![
            0xC0u8,
            0x0Cu8,
            0x00u8,
            0x01u8,
            0x00u8,
            0x01u8,
            0x00u8,
            0x00u8,
            0x00u8,
            0x3Cu8,
            0x00u8,
            0x04u8,
        ] + seq![127u8, 0u8, 0u8, 1u8],
{
    let addr: u32 = 0x7F000001;
    reveal_strlit("127.0.0.1");
    reveal_with_fuel(crate::text::radix_digits, 3);
    assert(crate::nat_table::octet(addr, 3) == 127);
    assert(crate::nat_table::octet(addr, 2) == 0);
    assert(crate::nat_table::octet(addr, 1) == 0);
    assert(crate::nat_table::octet(addr, 0) == 1);
    assert(LOCAL_IP@ =~= crate::nat_table::ip_text(addr));
    crate::nat_table::lemma_ip_text_pieces(addr);
    crate::nat_table::lemma_parsed_four(127, 0, 0, 1);
    assert(parsed_octets(split_char(LOCAL_IP@, '.')) =~= seq![127u8, 0u8, 0u8, 1u8]);
    let head_none = dns_answer(q, None);
    assert(dns_answer(q, Some(LOCAL_IP@)) =~= head_none.update(7, 1u8) + seq![
        0xC0u8,
        0x0Cu8,
        0x00u8,
        0x01u8,
        0x00u8,
        0x01u8,
        0x00u8,
        0x00u8,
        0x00u8,
        0x3Cu8,
        0x00u8,
        0x04u8,
    ] + seq![127u8, 0u8, 0u8, 1u8]);
}

} // verus!
