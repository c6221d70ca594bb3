//! Reading the network facts the proxies and the tunnel need out of the
//! text that `route`, `ifconfig` and `ip addr` print: the default gateway,
//! the address of the physical interface, and the tunnel device's name.
use vstd::prelude::*;
use crate::scan::{
    chars_lines, chars_trim, chars_trim_start_matches, chars_words, char_seqs, lines_of, trim,
    trim_start_matches, words,
};
use crate::text::{
    chars_contains, chars_ends_with, chars_eq, chars_find, chars_find_char, chars_starts_with,
    chars_to_string, contains_seq, ends_with, first_occurrence, index_of_char, lemma_index_of_char,
    starts_with, str_to_chars, sub_chars,
};

verus! {

broadcast use vstd::string::group_string_axioms;

// ---------------------------------------------------------------------------
// Default gateway
// ---------------------------------------------------------------------------

/// The gateway named by the first line, from `i` on, that reads
/// `gateway: ...` once trimmed.
pub open spec fn gateway_from(lines: Seq<Seq<char>>, i: int) -> Option<Seq<char>>
    decreases lines.len() - i,
{
    if i < 0 || i >= lines.len() {
        None
    } else {
        let t = trim(lines[i]);
        if starts_with(t, "gateway:"@) {
            Some(trim(trim_start_matches(t, "gateway:"@)))
        } else {
            gateway_from(lines, i + 1)
        }
    }
}

/// The default gateway in the output of `route -n get default`.
pub fn default_gateway_from_route(output: &str) -> (r: Option<String>)
    ensures
        match gateway_from(lines_of(output@), 0) {
            Some(g) => r matches Some(s) && s@ == g,
            None => r is None,
        },
{
    let chars = str_to_chars(output);
    let lines = chars_lines(chars.as_slice());
    let ghost ls = char_seqs(lines@);
    let prefix = str_to_chars("gateway:");
    proof {
        reveal_strlit("gateway:");
    }
    let mut i: usize = 0;
    while i < lines.len()
        invariant
            i <= lines@.len(),
            ls == char_seqs(lines@),
            ls == lines_of(output@),
            prefix@ == "gateway:"@,
            gateway_from(ls, 0) == gateway_from(ls, i as int),
        decreases lines@.len() - i,
    {
        assert(ls[i as int] == lines@[i as int]@);
        let t = chars_trim(lines[i].as_slice());
        if chars_starts_with(t.as_slice(), prefix.as_slice()) {
            let rest = chars_trim_start_matches(t.as_slice(), prefix.as_slice());
            let g = chars_trim(rest.as_slice());
            return Some(chars_to_string(g.as_slice()));
        }
        i = i + 1;
    }
    None
}

// ---------------------------------------------------------------------------
// Physical interface address (ifconfig)
// ---------------------------------------------------------------------------

/// Whether `c::is_alphanumeric()` holds: Unicode `Alphabetic` or `Numeric`.
pub uninterp spec fn alphanumeric(c: char) -> bool;

/// Calls `char::is_alphanumeric`; claims only that the answer is the named
/// property of `c`.
#[verifier::external_body]
fn char_is_alphanumeric(c: char) -> (r: bool)
    ensures
        r == alphanumeric(c),
{
    c.is_alphanumeric()
}

/// For each line, whether it starts with an alphanumeric character.
pub open spec fn starts_alphanumeric(lines: Seq<Seq<char>>) -> Seq<bool> {
    Seq::new(lines.len(), |i: int| lines[i].len() > 0 && alphanumeric(lines[i][0]))
}

/// A header line of `ifconfig` for an interface other than a tunnel or the
/// loopback: not indented, holding a colon, more than one character long,
/// starting with an alphanumeric character (`alnum`), naming neither
/// `utun` nor `lo0`.
pub open spec fn physical_header(line: Seq<char>, alnum: bool) -> bool {
    &&& !starts_with(line, "\t"@)
    &&& !starts_with(line, " "@)
    &&& index_of_char(line, ':') is Some
    &&& line.len() > 1
    &&& alnum
    &&& !contains_seq(line, "utun"@)
    &&& !contains_seq(line, "lo0"@)
}

/// An address `ifconfig` lists that is not a loopback one: it does not
/// start with `127.` and holds a dot.
pub open spec fn usable_ipv4(ip: Seq<char>) -> bool {
    !starts_with(ip, "127."@) && index_of_char(ip, '.') is Some
}

/// The first usable `inet` address listed under a physical interface, from
/// line `i` on, `current` being the interface whose section the scan is in
/// (empty when none, or once its first `inet` line was looked at).
pub open spec fn ifconfig_ip_from(
    lines: Seq<Seq<char>>,
    alnum: Seq<bool>,
    i: int,
    current: Seq<char>,
) -> Option<Seq<char>>
    decreases lines.len() - i,
{
    if i < 0 || i >= lines.len() {
        None
    } else {
        let line = lines[i];
        let a = i < alnum.len() && alnum[i];
        if physical_header(line, a) {
            ifconfig_ip_from(lines, alnum, i + 1, line.take(index_of_char(line, ':').unwrap()))
        } else if current.len() > 0 && starts_with(trim(line), "inet "@) {
            let parts = words(trim(line));
            if parts.len() >= 2 && usable_ipv4(parts[1]) {
                Some(parts[1])
            } else {
                ifconfig_ip_from(lines, alnum, i + 1, Seq::empty())
            }
        } else {
            ifconfig_ip_from(lines, alnum, i + 1, current)
        }
    }
}

fn is_physical_header(line: &[char], alnum: bool) -> (r: bool)
    ensures
        r == physical_header(line@, alnum),
{
    let tab = str_to_chars("\t");
    let space = str_to_chars(" ");
    let utun = str_to_chars("utun");
    let lo0 = str_to_chars("lo0");
    proof {
        reveal_strlit("\t");
        reveal_strlit(" ");
        reveal_strlit("utun");
        reveal_strlit("lo0");
    }
    !chars_starts_with(line, tab.as_slice()) && !chars_starts_with(line, space.as_slice())
        && chars_find_char(line, ':').is_some() && line.len() > 1 && alnum && !chars_contains(
        line,
        utun.as_slice(),
    ) && !chars_contains(line, lo0.as_slice())
}

fn is_usable_ipv4(ip: &[char]) -> (r: bool)
    ensures
        r == usable_ipv4(ip@),
{
    let lo = str_to_chars("127.");
    proof {
        reveal_strlit("127.");
    }
    !chars_starts_with(ip, lo.as_slice()) && chars_find_char(ip, '.').is_some()
}

/// The address of the first physical interface in `ifconfig` output, given
/// its lines and, for each, whether it starts with an alphanumeric
/// character.
pub fn physical_ip_from_lines(lines: &Vec<Vec<char>>, alnum: &Vec<bool>) -> (r: Option<String>)
    ensures
        match ifconfig_ip_from(char_seqs(lines@), alnum@, 0, Seq::empty()) {
            Some(ip) => r matches Some(s) && s@ == ip,
            None => r is None,
        },
{
    let ghost ls = char_seqs(lines@);
    let inet = str_to_chars("inet ");
    proof {
        reveal_strlit("inet ");
    }
    let mut current: Vec<char> = Vec::new();
    let mut i: usize = 0;
    while i < lines.len()
        invariant
            i <= lines@.len(),
            ls == char_seqs(lines@),
            inet@ == "inet "@,
            ifconfig_ip_from(ls, alnum@, 0, Seq::empty()) == ifconfig_ip_from(
                ls,
                alnum@,
                i as int,
                current@,
            ),
        decreases lines@.len() - i,
    {
        let line = lines[i].as_slice();
        assert(ls[i as int] == lines@[i as int]@);
        let a = i < alnum.len() && alnum[i];
        if is_physical_header(line, a) {
            let c = chars_find_char(line, ':');
            proof {
                lemma_index_of_char(line@, ':');
            }
            match c {
                Some(pos) => {
                    current = sub_chars(line, 0, pos);
                },
                None => {},
            }
        } else {
            let t = chars_trim(line);
            if current.len() > 0 && chars_starts_with(t.as_slice(), inet.as_slice()) {
                let parts = chars_words(t.as_slice());
                if parts.len() >= 2 {
                    assert(char_seqs(parts@)[1] == parts@[1]@);
                    if is_usable_ipv4(parts[1].as_slice()) {
                        return Some(chars_to_string(parts[1].as_slice()));
                    }
                }
                current = Vec::new();
                assert(current@ =~= Seq::<char>::empty());
            }
        }
        i = i + 1;
    }
    None
}

/// The address of the first physical interface in the output of
/// `ifconfig`.
pub fn physical_ip_from_ifconfig(output: &str) -> (r: Option<String>)
    ensures
        match ifconfig_ip_from(
            lines_of(output@),
            starts_alphanumeric(lines_of(output@)),
            0,
            Seq::empty(),
        ) {
            Some(ip) => r matches Some(s) && s@ == ip,
            None => r is None,
        },
{
    let chars = str_to_chars(output);
    let lines = chars_lines(chars.as_slice());
    let ghost ls = char_seqs(lines@);
    let mut alnum: Vec<bool> = Vec::new();
    let mut i: usize = 0;
    while i < lines.len()
        invariant
            i <= lines@.len(),
            ls == char_seqs(lines@),
            alnum@ == starts_alphanumeric(ls).take(i as int),
        decreases lines@.len() - i,
    {
        assert(ls[i as int] == lines@[i as int]@);
        let a = lines[i].len() > 0 && char_is_alphanumeric(lines[i][0]);
        alnum.push(a);
        i = i + 1;
        assert(alnum@ =~= starts_alphanumeric(ls).take(i as int));
    }
    assert(alnum@ =~= starts_alphanumeric(ls));
    physical_ip_from_lines(&lines, &alnum)
}

/// The address of the physical interface and the gateway behind it.
pub struct PhysicalInterfaceInfo {
    pub ip: String,
    pub gateway: String,
}

/// The gateway assumed when `route` names none.
pub const FALLBACK_GATEWAY: &'static str = "192.168.1.1";

/// The physical interface found in `ifconfig` output, with the gateway
/// found in `route` output (or the fallback gateway).
pub fn physical_interface_info(ifconfig_output: &str, route_output: Option<&str>) -> (r: Option<
    PhysicalInterfaceInfo,
>)
    ensures
        match ifconfig_ip_from(
            lines_of(ifconfig_output@),
            starts_alphanumeric(lines_of(ifconfig_output@)),
            0,
            Seq::empty(),
        ) {
            Some(ip) => r matches Some(info) && info.ip@ == ip && info.gateway@ == match route_output {
                Some(out) => match gateway_from(lines_of(out@), 0) {
                    Some(g) => g,
                    None => FALLBACK_GATEWAY@,
                },
                None => FALLBACK_GATEWAY@,
            },
            None => r is None,
        },
{
    let gateway = match route_output {
        Some(out) => match default_gateway_from_route(out) {
            Some(g) => g,
            None => crate::text::string_of(FALLBACK_GATEWAY),
        },
        None => crate::text::string_of(FALLBACK_GATEWAY),
    };
    match physical_ip_from_ifconfig(ifconfig_output) {
        Some(ip) => Some(PhysicalInterfaceInfo { ip, gateway }),
        None => None,
    }
}

// ---------------------------------------------------------------------------
// Physical interface address (ip addr)
// ---------------------------------------------------------------------------

/// The text after the first `": "` of `s` up to the next one (or the end),
/// when `s` holds one.
pub open spec fn after_colon_space(s: Seq<char>) -> Option<Seq<char>> {
    if exists|i: int| first_occurrence(s, ": "@, i) {
        let i = choose|i: int| first_occurrence(s, ": "@, i);
        let rest = s.skip(i + 2);
        if exists|j: int| first_occurrence(rest, ": "@, j) {
            Some(rest.take(choose|j: int| first_occurrence(rest, ": "@, j)))
        } else {
            Some(rest)
        }
    } else {
        None
    }
}

/// The part of `s` before the first `c` (all of it when there is none).
pub open spec fn before_char(s: Seq<char>, c: char) -> Seq<char> {
    match index_of_char(s, c) {
        Some(i) => s.take(i),
        None => s,
    }
}

/// The first usable `inet` address (without its prefix length) under an
/// interface other than a tunnel or the loopback in `ip addr show` output,
/// from line `i` on.
pub open spec fn ip_addr_ip_from(lines: Seq<Seq<char>>, i: int, current: Seq<char>) -> Option<
    Seq<char>,
>
    decreases lines.len() - i,
{
    if i < 0 || i >= lines.len() {
        None
    } else {
        let line = lines[i];
        if contains_seq(line, ": "@) && !contains_seq(line, "tun"@) && !contains_seq(line, "lo"@) {
            match after_colon_space(line) {
                Some(name) => ip_addr_ip_from(lines, i + 1, before_char(name, '@')),
                None => ip_addr_ip_from(lines, i + 1, current),
            }
        } else if current.len() > 0 && starts_with(trim(line), "inet "@) {
            let parts = words(trim(line));
            if parts.len() >= 2 && usable_ipv4(before_char(parts[1], '/')) {
                Some(before_char(parts[1], '/'))
            } else {
                ip_addr_ip_from(lines, i + 1, Seq::empty())
            }
        } else {
            ip_addr_ip_from(lines, i + 1, current)
        }
    }
}

fn before_char_chars(s: &[char], c: char) -> (r: Vec<char>)
    ensures
        r@ == before_char(s@, c),
{
    match chars_find_char(s, c) {
        Some(i) => {
            proof {
                lemma_index_of_char(s@, c);
            }
            sub_chars(s, 0, i)
        },
        None => sub_chars(s, 0, s.len()),
    }
}

fn after_colon_space_chars(s: &[char]) -> (r: Option<Vec<char>>)
    ensures
        match after_colon_space(s@) {
            Some(x) => r matches Some(v) && v@ == x,
            None => r is None,
        },
{
    let pat = str_to_chars(": ");
    proof {
        reveal_strlit(": ");
    }
    let n = s.len();
    match chars_find(s, pat.as_slice()) {
        None => None,
        Some(i) => {
            proof {
                let c = choose|x: int| first_occurrence(s@, ": "@, x);
                crate::scan::lemma_first_occurrence_unique(s@, ": "@, c, i as int);
            }
            let rest = sub_chars(s, i + 2, n);
            assert(rest@ =~= s@.skip(i + 2));
            match chars_find(rest.as_slice(), pat.as_slice()) {
                Some(j) => {
                    proof {
                        let c = choose|x: int| first_occurrence(rest@, ": "@, x);
                        crate::scan::lemma_first_occurrence_unique(rest@, ": "@, c, j as int);
                    }
                    Some(sub_chars(rest.as_slice(), 0, j))
                },
                None => Some(rest),
            }
        },
    }
}

/// The address of the first physical interface in the output of
/// `ip addr show`.
pub fn physical_ip_from_ip_addr(output: &str) -> (r: Option<String>)
    ensures
        match ip_addr_ip_from(lines_of(output@), 0, Seq::empty()) {
            Some(ip) => r matches Some(s) && s@ == ip,
            None => r is None,
        },
{
    let chars = str_to_chars(output);
    let lines = chars_lines(chars.as_slice());
    let ghost ls = char_seqs(lines@);
    let cs = str_to_chars(": ");
    let tun = str_to_chars("tun");
    let lo = str_to_chars("lo");
    let inet = str_to_chars("inet ");
    proof {
        reveal_strlit(": ");
        reveal_strlit("tun");
        reveal_strlit("lo");
        reveal_strlit("inet ");
    }
    let mut current: Vec<char> = Vec::new();
    let mut i: usize = 0;
    while i < lines.len()
        invariant
            i <= lines@.len(),
            ls == char_seqs(lines@),
            ls == lines_of(output@),
            cs@ == ": "@,
            tun@ == "tun"@,
            lo@ == "lo"@,
            inet@ == "inet "@,
            ip_addr_ip_from(ls, 0, Seq::empty()) == ip_addr_ip_from(ls, i as int, current@),
        decreases lines@.len() - i,
    {
        let line = lines[i].as_slice();
        assert(ls[i as int] == lines@[i as int]@);
        if chars_contains(line, cs.as_slice()) && !chars_contains(line, tun.as_slice())
            && !chars_contains(line, lo.as_slice()) {
            match after_colon_space_chars(line) {
                Some(name) => {
                    current = before_char_chars(name.as_slice(), '@');
                },
                None => {},
            }
        } else {
            let t = chars_trim(line);
            if current.len() > 0 && chars_starts_with(t.as_slice(), inet.as_slice()) {
                let parts = chars_words(t.as_slice());
                if parts.len() >= 2 {
                    assert(char_seqs(parts@)[1] == parts@[1]@);
                    let ip = before_char_chars(parts[1].as_slice(), '/');
                    if is_usable_ipv4(ip.as_slice()) {
                        return Some(chars_to_string(ip.as_slice()));
                    }
                }
                current = Vec::new();
                assert(current@ =~= Seq::<char>::empty());
            }
        }
        i = i + 1;
    }
    None
}

// ---------------------------------------------------------------------------
// Tunnel device name
// ---------------------------------------------------------------------------

/// `s` without every trailing `c`.
pub open spec fn trim_end_char(s: Seq<char>, c: char) -> Seq<char>
    decreases s.len(),
{
    if s.len() > 0 && s.last() == c {
        trim_end_char(s.drop_last(), c)
    } else {
        s
    }
}

/// The `utun` device whose `inet` address is `expected` in `ifconfig -a`
/// output, from line `i` on (lines are trimmed; a device header ends with a
/// colon).
pub open spec fn tun_device_from(
    lines: Seq<Seq<char>>,
    expected: Seq<char>,
    i: int,
    current: Seq<char>,
) -> Option<Seq<char>>
    decreases lines.len() - i,
{
    if i < 0 || i >= lines.len() {
        None
    } else {
        let line = trim(lines[i]);
        if ends_with(line, ":"@) && contains_seq(line, "utun"@) {
            tun_device_from(lines, expected, i + 1, trim_end_char(line, ':'))
        } else if starts_with(current, "utun"@) && starts_with(line, "inet "@) {
            let parts = words(line);
            if parts.len() >= 2 && parts[1] == expected {
                Some(current)
            } else {
                tun_device_from(lines, expected, i + 1, current)
            }
        } else {
            tun_device_from(lines, expected, i + 1, current)
        }
    }
}

fn trim_end_char_chars(s: &[char], c: char) -> (r: Vec<char>)
    ensures
        r@ == trim_end_char(s@, c),
{
    let mut end = s.len();
    assert(s@.take(end as int) =~= s@);
    while end > 0 && s[end - 1] == c
        invariant
            end <= s@.len(),
            trim_end_char(s@, c) == trim_end_char(s@.take(end as int), c),
        decreases end,
    {
        assert(s@.take(end as int).drop_last() =~= s@.take(end - 1));
        end = end - 1;
    }
    sub_chars(s, 0, end)
}

/// The name of the `utun` device that carries the address `expected_ip`, in
/// the output of `ifconfig -a`.
pub fn tun_device_from_ifconfig(output: &str, expected_ip: &str) -> (r: Option<String>)
    ensures
        match tun_device_from(lines_of(output@), expected_ip@, 0, Seq::empty()) {
            Some(d) => r matches Some(s) && s@ == d,
            None => r is None,
        },
{
    let chars = str_to_chars(output);
    let expected = str_to_chars(expected_ip);
    let lines = chars_lines(chars.as_slice());
    let ghost ls = char_seqs(lines@);
    let colon = str_to_chars(":");
    let utun = str_to_chars("utun");
    let inet = str_to_chars("inet ");
    proof {
        reveal_strlit(":");
        reveal_strlit("utun");
        reveal_strlit("inet ");
    }
    let mut current: Vec<char> = Vec::new();
    let mut i: usize = 0;
    while i < lines.len()
        invariant
            i <= lines@.len(),
            ls == char_seqs(lines@),
            ls == lines_of(output@),
            expected@ == expected_ip@,
            colon@ == ":"@,
            utun@ == "utun"@,
            inet@ == "inet "@,
            tun_device_from(ls, expected_ip@, 0, Seq::empty()) == tun_device_from(
                ls,
                expected_ip@,
                i as int,
                current@,
            ),
        decreases lines@.len() - i,
    {
        assert(ls[i as int] == lines@[i as int]@);
        let line = chars_trim(lines[i].as_slice());
        if chars_ends_with(line.as_slice(), colon.as_slice()) && chars_contains(
            line.as_slice(),
            utun.as_slice(),
        ) {
            current = trim_end_char_chars(line.as_slice(), ':');
        } else if chars_starts_with(current.as_slice(), utun.as_slice()) && chars_starts_with(
            line.as_slice(),
            inet.as_slice(),
        ) {
            let parts = chars_words(line.as_slice());
            if parts.len() >= 2 {
                assert(char_seqs(parts@)[1] == parts@[1]@);
                if chars_eq(parts[1].as_slice(), expected.as_slice()) {
                    return Some(chars_to_string(current.as_slice()));
                }
            }
        }
        i = i + 1;
    }
    None
}

} // verus!
