//! The filtering HTTP and SOCKS5 proxies: the pages and responses they
//! send when a site is refused, how they read the target out of a request,
//! and the decisions they take for each connection.
use vstd::prelude::*;
use vstd::utf8::encode_utf8;
use crate::scan::{
    chars_lines, chars_replace, chars_trim, chars_trim_start_matches, chars_words, char_is_whitespace,
    char_seqs, is_ws, lines_of, lowercase, replace_all, str_bytes, str_to_lowercase, trim,
    trim_start_matches, words,
};
use crate::engine::{access_check_safe, access_verdict, FilterEngine};
use crate::models::{clock_valid, local_now, opt_view, FilterConfig, LocalClock};
use crate::nat_table::{be16_at, read_be16};
use crate::packet::copy_range;
use crate::sni_filter::{sni_of, string_from_utf8_lossy, utf8_lossy, SniExtractor};
use crate::text::{
    chars_find, chars_find_char, chars_split, chars_starts_with, chars_to_string, chars_views,
    dec, first_occurrence, index_of_char, lemma_index_of_char, parse_unsigned,
    parse_unsigned_chars, push_chars, push_str, split_char, starts_with, str_to_chars, string_of,
    sub_chars, u64_to_dec,
};

verus! {

broadcast use vstd::string::group_string_axioms;

/// The page shown in place of a refused site; the two placeholders are
/// replaced by the domain and the reason.
pub const BLOCKED_PAGE: &'static str = r#"<!DOCTYPE html>
<html lang="zh-CN">
<head>
    <meta charset="UTF-8">
    <meta name="viewport" content="width=device-width, initial-scale=1.0">
    <title>访问受限 - 成长守护</title>
    <style>
        * { margin: 0; padding: 0; box-sizing: border-box; }
        body {
            font-family: -apple-system, BlinkMacSystemFont, 'Segoe UI', Roboto, sans-serif;
            background: linear-gradient(135deg, #1e3a5f 0%, #0f172a 100%);
            min-height: 100vh;
            display: flex;
            align-items: center;
            justify-content: center;
            padding: 20px;
        }
        .container {
            background: rgba(255, 255, 255, 0.95);
            border-radius: 24px;
            padding: 48px;
            max-width: 480px;
            text-align: center;
            box-shadow: 0 25px 50px -12px rgba(0, 0, 0, 0.25);
        }
        .icon {
            width: 80px;
            height: 80px;
            background: linear-gradient(135deg, #f59e0b, #f97316);
            border-radius: 50%;
            display: flex;
            align-items: center;
            justify-content: center;
            margin: 0 auto 24px;
        }
        .icon svg { width: 40px; height: 40px; fill: white; }
        h1 { color: #1e293b; font-size: 28px; font-weight: 700; margin-bottom: 12px; }
        .subtitle { color: #64748b; font-size: 16px; margin-bottom: 24px; }
        .info-box { background: #f1f5f9; border-radius: 12px; padding: 20px; margin-bottom: 24px; }
        .domain { color: #ef4444; font-weight: 600; font-size: 18px; word-break: break-all; }
        .reason { color: #64748b; font-size: 14px; margin-top: 8px; }
        .tips { background: #fef3c7; border-left: 4px solid #f59e0b; border-radius: 0 8px 8px 0; padding: 16px; text-align: left; }
        .tips h3 { color: #92400e; font-size: 14px; font-weight: 600; margin-bottom: 8px; }
        .tips ul { color: #78350f; font-size: 13px; padding-left: 20px; }
        .tips li { margin-bottom: 4px; }
        .footer { margin-top: 24px; color: #94a3b8; font-size: 12px; }
    </style>
</head>
<body>
    <div class="container">
        <div class="icon">
            <svg viewBox="0 0 24 24"><path d="M12 2C6.48 2 2 6.48 2 12s4.48 10 10 10 10-4.48 10-10S17.52 2 12 2zm-2 15l-5-5 1.41-1.41L10 14.17l7.59-7.59L19 8l-9 9z"/></svg>
        </div>
        <h1>此网站暂时无法访问</h1>
        <p class="subtitle">成长守护为你过滤了不适宜的内容</p>
        <div class="info-box">
            <div class="domain">DOMAIN_PLACEHOLDER</div>
            <div class="reason">REASON_PLACEHOLDER</div>
        </div>
        <div class="tips">
            <h3>温馨提示</h3>
            <ul>
                <li>可以尝试访问首页或搜索其他内容</li>
                <li>如有疑问，请联系家长</li>
                <li>推荐访问「探索精彩」页面发现优质内容</li>
            </ul>
        </div>
        <div class="footer">成长守护 · 保护每一次探索</div>
    </div>
</body>
</html>"#;

/// The reason shown when the filter gave none.
pub const DEFAULT_REASON: &'static str = "该网站可能包含不适合的内容";

pub open spec fn reason_text(reason: Option<Seq<char>>) -> Seq<char> {
    match reason {
        Some(r) => r,
        None => DEFAULT_REASON@,
    }
}

pub open spec fn str_opt_view(o: Option<&str>) -> Option<Seq<char>> {
    match o {
        Some(s) => Some(s@),
        None => None,
    }
}

/// The refusal page for `domain`: the domain placeholder replaced first,
/// then the reason placeholder (in the page as it then reads).
pub open spec fn blocked_html(domain: Seq<char>, reason: Option<Seq<char>>) -> Seq<char> {
    replace_all(
        replace_all(BLOCKED_PAGE@, "DOMAIN_PLACEHOLDER"@, domain),
        "REASON_PLACEHOLDER"@,
        reason_text(reason),
    )
}

/// Builds the refusal page for `domain` with the filter's reason.
pub fn build_blocked_html(domain: &str, reason: Option<&str>) -> (r: String)
    ensures
        r@ == blocked_html(domain@, str_opt_view(reason)),
{
    let reason_text = match reason {
        Some(r) => r,
        None => DEFAULT_REASON,
    };
    let page = str_to_chars(BLOCKED_PAGE);
    let d_pat = str_to_chars("DOMAIN_PLACEHOLDER");
    let r_pat = str_to_chars("REASON_PLACEHOLDER");
    proof {
        reveal_strlit("DOMAIN_PLACEHOLDER");
        reveal_strlit("REASON_PLACEHOLDER");
    }
    let d = str_to_chars(domain);
    let rt = str_to_chars(reason_text);
    let step1 = chars_replace(page.as_slice(), d_pat.as_slice(), d.as_slice());
    let step2 = chars_replace(step1.as_slice(), r_pat.as_slice(), rt.as_slice());
    chars_to_string(step2.as_slice())
}

/// The head of a 200 response carrying HTML of `len` bytes.
pub open spec fn ok_head(len: nat) -> Seq<char> {
    "HTTP/1.1 200 OK\r\nContent-Type: text/html; charset=utf-8\r\nContent-Length: "@ + dec(len)
        + "\r\nConnection: close\r\n\r\n"@
}

/// The head of a 200 response carrying HTML of `len` bytes that must not
/// be cached.
pub open spec fn no_cache_head(len: nat) -> Seq<char> {
    "HTTP/1.1 200 OK\r\nContent-Type: text/html; charset=utf-8\r\nContent-Length: "@ + dec(len)
        + "\r\nConnection: close\r\nCache-Control: no-cache, no-store, must-revalidate\r\nPragma: no-cache\r\nExpires: 0\r\n\r\n"@
}

/// The head of the answer to a refused CONNECT, carrying HTML of `len`
/// bytes.
pub open spec fn connect_head(len: nat) -> Seq<char> {
    "HTTP/1.1 200 OK\r\nProxy-Agent: Xnetify/1.0\r\nContent-Type: text/html; charset=utf-8\r\nContent-Length: "@
        + dec(len) + "\r\nConnection: close\r\n\r\n"@
}

fn head_with_length(before: &str, len: usize, after: &str) -> (r: String)
    ensures
        r@ == before@ + dec(len as nat) + after@,
{
    let mut s = string_of(before);
    let n = u64_to_dec(len as u64);
    push_str(&mut s, n.as_str());
    push_str(&mut s, after);
    s
}

fn append_bytes(v: &mut Vec<u8>, b: &Vec<u8>)
    ensures
        final(v)@ == old(v)@ + b@,
{
    let ghost v0 = v@;
    let n = b.len();
    let mut i: usize = 0;
    while i < n
        invariant
            n == b@.len(),
            i <= n,
            v@ == v0 + b@.take(i as int),
        decreases n - i,
    {
        v.push(b[i]);
        i = i + 1;
        assert(v@ =~= v0 + b@.take(i as int));
    }
    assert(b@.take(n as int) =~= b@);
}

/// The refusal page for an HTTP request, as the bytes of a complete 200
/// response.
pub fn build_blocked_response(domain: &str, reason: Option<&str>) -> (r: Vec<u8>)
    ensures
        ({
            let html = blocked_html(domain@, str_opt_view(reason));
            r@ == encode_utf8(ok_head(encode_utf8(html).len())) + encode_utf8(html)
        }),
{
    let html = build_blocked_html(domain, reason);
    let body = str_bytes(html.as_str());
    let head = head_with_length(
        "HTTP/1.1 200 OK\r\nContent-Type: text/html; charset=utf-8\r\nContent-Length: ",
        body.len(),
        "\r\nConnection: close\r\n\r\n",
    );
    let mut out = str_bytes(head.as_str());
    append_bytes(&mut out, &body);
    out
}

/// A page sent as the bytes of a complete, uncacheable 200 response.
pub fn build_redirect_response(html: &str) -> (r: Vec<u8>)
    ensures
        r@ == encode_utf8(no_cache_head(encode_utf8(html@).len())) + encode_utf8(html@),
{
    let body = str_bytes(html);
    let head = head_with_length(
        "HTTP/1.1 200 OK\r\nContent-Type: text/html; charset=utf-8\r\nContent-Length: ",
        body.len(),
        "\r\nConnection: close\r\nCache-Control: no-cache, no-store, must-revalidate\r\nPragma: no-cache\r\nExpires: 0\r\n\r\n",
    );
    let mut out = str_bytes(head.as_str());
    append_bytes(&mut out, &body);
    out
}

/// The refusal page for a CONNECT request, as the bytes of a complete 200
/// response.
pub fn build_blocked_connect_response(domain: &str, reason: Option<&str>) -> (r: Vec<u8>)
    ensures
        ({
            let html = blocked_html(domain@, str_opt_view(reason));
            r@ == encode_utf8(connect_head(encode_utf8(html).len()) + html)
        }),
{
    let html = build_blocked_html(domain, reason);
    let n = str_bytes(html.as_str()).len();
    let mut text = head_with_length(
        "HTTP/1.1 200 OK\r\nProxy-Agent: Xnetify/1.0\r\nContent-Type: text/html; charset=utf-8\r\nContent-Length: ",
        n,
        "\r\nConnection: close\r\n\r\n",
    );
    push_str(&mut text, html.as_str());
    str_bytes(text.as_str())
}

// ---------------------------------------------------------------------------
// Configuration
// ---------------------------------------------------------------------------

#[derive(Clone)]
pub struct ProxyConfig {
    pub local_port: u16,
    pub upstream_host: Option<String>,
    pub upstream_port: Option<u16>,
    pub direct_mode: bool,
}

impl Default for ProxyConfig {
    fn default() -> (r: Self)
        ensures
            r.local_port == 7890,
            r.upstream_host is None,
            r.upstream_port is None,
            r.direct_mode,
    {
        ProxyConfig { local_port: 7890, upstream_host: None, upstream_port: None, direct_mode: true }
    }
}

// ---------------------------------------------------------------------------
// Reading the target of a plain HTTP request
// ---------------------------------------------------------------------------

/// `s.parse::<u16>()`, or `d` when it fails.
pub open spec fn port_or(s: Seq<char>, d: u16) -> u16 {
    match parse_unsigned(s, 65535) {
        Some(v) => v as u16,
        None => d,
    }
}

/// A `host:port` text: the part before the first colon and the port after
/// it (80 when absent or unreadable).
pub open spec fn split_host_port(hp: Seq<char>) -> (Seq<char>, u16) {
    match index_of_char(hp, ':') {
        Some(c) => (hp.take(c), port_or(hp.skip(c + 1), 80)),
        None => (hp, 80),
    }
}

/// Index of the first whitespace character of `s`.
pub open spec fn first_ws(s: Seq<char>) -> Option<int>
    decreases s.len(),
{
    if s.len() == 0 {
        None
    } else if is_ws(s[0]) {
        Some(0)
    } else {
        match first_ws(s.drop_first()) {
            Some(i) => Some(i + 1),
            None => None,
        }
    }
}

proof fn lemma_first_ws(s: Seq<char>)
    ensures
        match first_ws(s) {
            Some(i) => 0 <= i < s.len() && is_ws(s[i]) && forall|j: int| 0 <= j < i ==> !is_ws(s[j]),
            None => forall|j: int| 0 <= j < s.len() ==> !is_ws(s[j]),
        },
    decreases s.len(),
{
    if s.len() > 0 {
        lemma_first_ws(s.drop_first());
        assert forall|j: int| 0 < j < s.len() implies s[j] == s.drop_first()[j - 1] by {}
    }
}

fn chars_first_ws(s: &[char]) -> (r: Option<usize>)
    ensures
        match r {
            Some(i) => first_ws(s@) == Some(i as int),
            None => first_ws(s@) is None,
        },
{
    proof {
        lemma_first_ws(s@);
    }
    let n = s.len();
    let mut i: usize = 0;
    while i < n
        invariant
            n == s@.len(),
            i <= n,
            forall|j: int| 0 <= j < i ==> !is_ws(s@[j]),
            match first_ws(s@) {
                Some(k) => 0 <= k < s@.len() && is_ws(s@[k]) && forall|j: int|
                    0 <= j < k ==> !is_ws(s@[j]),
                None => forall|j: int| 0 <= j < s@.len() ==> !is_ws(s@[j]),
            },
        decreases n - i,
    {
        if char_is_whitespace(s[i]) {
            return Some(i);
        }
        i = i + 1;
    }
    None
}

/// The target of an absolute URL in a request line (`GET http://host:port/
/// ... HTTP/1.1`), when the line holds one ended by whitespace: its host
/// part (up to the first `/`, if any) read as `host:port`.
pub open spec fn target_in_request_line(line: Seq<char>) -> Option<(Seq<char>, u16)> {
    if exists|i: int| first_occurrence(line, "://"@, i) {
        let i = choose|i: int| first_occurrence(line, "://"@, i);
        let after = line.skip(i + 3);
        match first_ws(after) {
            None => None,
            Some(sp) => {
                let hp = after.take(sp);
                match index_of_char(hp, '/') {
                    Some(sl) => Some(split_host_port(hp.take(sl))),
                    None => Some(split_host_port(hp)),
                }
            },
        }
    } else {
        None
    }
}

/// What follows the first `c` in `s`, or nothing.
pub open spec fn after_first(s: Seq<char>, c: char) -> Seq<char> {
    match index_of_char(s, c) {
        Some(i) => s.skip(i + 1),
        None => Seq::empty(),
    }
}

/// The target named by the first `Host:` header from line `i` on (the
/// header name compared in the lower-cased lines `lows`): the text after
/// the header's colon, trimmed, read as `host:port`.
pub open spec fn target_in_headers(lines: Seq<Seq<char>>, lows: Seq<Seq<char>>, i: int) -> (
    Seq<char>,
    u16,
)
    decreases lines.len() - i,
{
    if i < 0 || i >= lines.len() {
        (Seq::empty(), 80)
    } else if i < lows.len() && starts_with(lows[i], "host:"@) {
        split_host_port(trim(after_first(lines[i], ':')))
    } else {
        target_in_headers(lines, lows, i + 1)
    }
}

/// Host and port of a plain HTTP request with lines `lines` (lower-cased:
/// `lows`): from the request line's URL when it gives them, else from the
/// `Host:` header, else empty with port 80.
pub open spec fn request_target(lines: Seq<Seq<char>>, lows: Seq<Seq<char>>) -> (Seq<char>, u16) {
    if lines.len() > 0 && target_in_request_line(lines[0]) is Some {
        target_in_request_line(lines[0]).unwrap()
    } else {
        target_in_headers(lines, lows, 0)
    }
}

fn port_or_chars(s: &[char], d: u16) -> (r: u16)
    ensures
        r == port_or(s@, d),
{
    match parse_unsigned_chars(s, 65535) {
        Some(v) => v as u16,
        None => d,
    }
}

fn split_host_port_chars(hp: &[char]) -> (r: (Vec<char>, u16))
    ensures
        (r.0@, r.1) == split_host_port(hp@),
{
    let n = hp.len();
    match chars_find_char(hp, ':') {
        Some(c) => {
            proof {
                lemma_index_of_char(hp@, ':');
            }
            let host = sub_chars(hp, 0, c);
            let rest = sub_chars(hp, c + 1, n);
            assert(rest@ =~= hp@.skip(c + 1));
            (host, port_or_chars(rest.as_slice(), 80))
        },
        None => (sub_chars(hp, 0, hp.len()), 80),
    }
}

fn target_in_request_line_chars(line: &[char]) -> (r: Option<(Vec<char>, u16)>)
    ensures
        match target_in_request_line(line@) {
            Some(t) => r matches Some(x) && (x.0@, x.1) == t,
            None => r is None,
        },
{
    let sep = str_to_chars("://");
    proof {
        reveal_strlit("://");
    }
    let n = line.len();
    match chars_find(line, sep.as_slice()) {
        None => {
            return None;
        },
        Some(i) => {
            proof {
                let c = choose|x: int| first_occurrence(line@, "://"@, x);
                crate::scan::lemma_first_occurrence_unique(line@, "://"@, c, i as int);
            }
            let after = sub_chars(line, i + 3, n);
            assert(after@ =~= line@.skip(i + 3));
            match chars_first_ws(after.as_slice()) {
                None => None,
                Some(sp) => {
                    proof {
                        lemma_first_ws(after@);
                    }
                    let hp = sub_chars(after.as_slice(), 0, sp);
                    match chars_find_char(hp.as_slice(), '/') {
                        Some(sl) => {
                            proof {
                                lemma_index_of_char(hp@, '/');
                            }
                            let hpp = sub_chars(hp.as_slice(), 0, sl);
                            assert(hpp@ =~= hp@.take(sl as int));
                            Some(split_host_port_chars(hpp.as_slice()))
                        },
                        None => Some(split_host_port_chars(hp.as_slice())),
                    }
                },
            }
        },
    }
}

fn after_first_chars(s: &[char], c: char) -> (r: Vec<char>)
    ensures
        r@ == after_first(s@, c),
{
    match chars_find_char(s, c) {
        Some(i) => {
            proof {
                lemma_index_of_char(s@, c);
                assert(index_of_char(s@, c) == Some(i as int));
            }
            assert(i < s.len());
            let v = sub_chars(s, i + 1, s.len());
            assert(v@ =~= s@.skip(i + 1));
            v
        },
        None => Vec::new(),
    }
}

/// Host and port of a plain HTTP request, given its lines and the same
/// lines lower-cased.
pub fn host_and_port_from_lines(lines: &Vec<Vec<char>>, lows: &Vec<Vec<char>>) -> (r: (String, u16))
    ensures
        (r.0@, r.1) == request_target(char_seqs(lines@), char_seqs(lows@)),
{
    let ghost ls = char_seqs(lines@);
    let ghost lw = char_seqs(lows@);
    if lines.len() > 0 {
        assert(ls[0] == lines@[0]@);
        match target_in_request_line_chars(lines[0].as_slice()) {
            Some((h, p)) => {
                return (chars_to_string(h.as_slice()), p);
            },
            None => {},
        }
    }
    let host_prefix = str_to_chars("host:");
    proof {
        reveal_strlit("host:");
    }
    let mut i: usize = 0;
    while i < lines.len()
        invariant
            i <= lines@.len(),
            ls == char_seqs(lines@),
            lw == char_seqs(lows@),
            host_prefix@ == "host:"@,
            request_target(ls, lw) == if ls.len() > 0 && target_in_request_line(ls[0]) is Some {
                target_in_request_line(ls[0]).unwrap()
            } else {
                target_in_headers(ls, lw, 0)
            },
            !(ls.len() > 0 && target_in_request_line(ls[0]) is Some),
            target_in_headers(ls, lw, 0) == target_in_headers(ls, lw, i as int),
        decreases lines@.len() - i,
    {
        if i < lows.len() && chars_starts_with(lows[i].as_slice(), host_prefix.as_slice()) {
            assert(lw[i as int] == lows@[i as int]@);
            assert(ls[i as int] == lines@[i as int]@);
            let piece = after_first_chars(lines[i].as_slice(), ':');
            let t = chars_trim(piece.as_slice());
            let (h, p) = split_host_port_chars(t.as_slice());
            return (chars_to_string(h.as_slice()), p);
        }
        proof {
            if i < lows@.len() {
                assert(lw[i as int] == lows@[i as int]@);
            }
        }
        i = i + 1;
    }
    (String::new(), 80)
}

/// The lines of `s`, each lower-cased.
pub open spec fn lowered(lines: Seq<Seq<char>>) -> Seq<Seq<char>> {
    lines.map_values(|l: Seq<char>| lowercase(l))
}

/// The lines of `request` and the same lines lower-cased.
fn lines_and_lowered(request: &str) -> (r: (Vec<Vec<char>>, Vec<Vec<char>>))
    ensures
        char_seqs(r.0@) == lines_of(request@),
        char_seqs(r.1@) == lowered(lines_of(request@)),
{
    let chars = str_to_chars(request);
    let lines = chars_lines(chars.as_slice());
    let ghost ls = char_seqs(lines@);
    let mut lows: Vec<Vec<char>> = Vec::new();
    let mut i: usize = 0;
    while i < lines.len()
        invariant
            i <= lines@.len(),
            ls == char_seqs(lines@),
            char_seqs(lows@) == lowered(ls.take(i as int)),
        decreases lines@.len() - i,
    {
        let line = chars_to_string(lines[i].as_slice());
        let low = str_to_lowercase(line.as_str());
        let low_chars = str_to_chars(low.as_str());
        proof {
            assert(ls[i as int] == lines@[i as int]@);
            assert(char_seqs(lows@.push(low_chars)) =~= char_seqs(lows@).push(low_chars@));
            assert(lowered(ls.take(i + 1)) =~= lowered(ls.take(i as int)).push(lowercase(ls[i as int])));
        }
        lows.push(low_chars);
        i = i + 1;
    }
    assert(ls.take(lines@.len() as int) =~= ls);
    (lines, lows)
}

/// Host and port that a plain HTTP request is for: from the URL of its
/// request line when it gives them, else from its `Host:` header (port 80
/// unless given), else empty with port 80.
pub fn extract_host_and_port_from_request(request: &str) -> (r: (String, u16))
    ensures
        (r.0@, r.1) == request_target(lines_of(request@), lowered(lines_of(request@))),
{
    let (lines, lows) = lines_and_lowered(request);
    host_and_port_from_lines(&lines, &lows)
}

// ---------------------------------------------------------------------------
// SOCKS5
// ---------------------------------------------------------------------------

pub const SOCKS_VERSION: u8 = 0x05;
pub const AUTH_NO_AUTH: u8 = 0x00;
pub const CMD_CONNECT: u8 = 0x01;
pub const ATYP_IPV4: u8 = 0x01;
pub const ATYP_DOMAIN: u8 = 0x03;

/// The answer to a client's greeting.
pub enum Socks5Greeting {
    /// Not a SOCKS5 greeting: close without answering.
    Drop,
    /// Answer this (no acceptable method) and close.
    Reject(Vec<u8>),
    /// Answer this (no authentication) and wait for the request.
    Accept(Vec<u8>),
}

/// A greeting offers no authentication among its methods.
pub open spec fn offers_no_auth(buf: Seq<u8>) -> bool {
    exists|i: int| 2 <= i < buf.len() && buf[i] == 0
}

/// Answers a client's SOCKS5 greeting (`buf` is what was read).
pub fn socks5_greeting(buf: &[u8]) -> (r: Socks5Greeting)
    ensures
        (buf@.len() < 3 || buf@[0] != 5) ==> r is Drop,
        !(buf@.len() < 3 || buf@[0] != 5) ==> match r {
            Socks5Greeting::Accept(v) => offers_no_auth(buf@) && v@ == seq![5u8, 0u8],
            Socks5Greeting::Reject(v) => !offers_no_auth(buf@) && v@ == seq![5u8, 0xFFu8],
            Socks5Greeting::Drop => false,
        },
{
    let n = buf.len();
    if n < 3 || buf[0] != SOCKS_VERSION {
        return Socks5Greeting::Drop;
    }
    let mut i: usize = 2;
    while i < n
        invariant
            n == buf@.len(),
            n >= 3,
            buf@[0] == 5,
            2 <= i <= n,
            forall|j: int| 2 <= j < i ==> buf@[j] != 0,
        decreases n - i,
    {
        if buf[i] == AUTH_NO_AUTH {
            let mut v: Vec<u8> = Vec::new();
            v.push(SOCKS_VERSION);
            v.push(AUTH_NO_AUTH);
            assert(v@ =~= seq![5u8, 0u8]);
            return Socks5Greeting::Accept(v);
        }
        i = i + 1;
    }
    let mut v: Vec<u8> = Vec::new();
    v.push(SOCKS_VERSION);
    v.push(0xFFu8);
    assert(v@ =~= seq![5u8, 0xFFu8]);
    Socks5Greeting::Reject(v)
}

/// The destination of a CONNECT request: host text, port and address type.
pub struct Socks5Target {
    pub host: String,
    pub port: u16,
    pub atyp: u8,
}

/// `a.b.c.d` from four bytes.
pub open spec fn dotted(a: u8, b: u8, c: u8, d: u8) -> Seq<char> {
    dec(a as nat) + "."@ + dec(b as nat) + "."@ + dec(c as nat) + "."@ + dec(d as nat)
}

/// The destination of a SOCKS5 CONNECT request `buf`: an IPv4 address
/// (type 1) or a domain name (type 3, read as lossy UTF-8), with its port.
pub open spec fn socks5_request_target(buf: Seq<u8>) -> Option<(Seq<char>, u16, u8)> {
    if buf.len() < 10 || buf[0] != 5 || buf[1] != 1 {
        None
    } else if buf[3] == 1 {
        Some((dotted(buf[4], buf[5], buf[6], buf[7]), be16_at(buf, 8), 1u8))
    } else if buf[3] == 3 {
        let dl = buf[4] as int;
        if buf.len() < 5 + dl + 2 {
            None
        } else {
            Some((utf8_lossy(buf.subrange(5, 5 + dl)), be16_at(buf, 5 + dl), 3u8))
        }
    } else {
        None
    }
}

fn dotted_exec(a: u8, b: u8, c: u8, d: u8) -> (r: String)
    ensures
        r@ == dotted(a, b, c, d),
{
    let mut s = u64_to_dec(a as u64);
    push_str(&mut s, ".");
    let t = u64_to_dec(b as u64);
    push_str(&mut s, t.as_str());
    push_str(&mut s, ".");
    let t = u64_to_dec(c as u64);
    push_str(&mut s, t.as_str());
    push_str(&mut s, ".");
    let t = u64_to_dec(d as u64);
    push_str(&mut s, t.as_str());
    s
}

/// Reads the destination of a SOCKS5 CONNECT request.
pub fn parse_socks5_request(buf: &[u8]) -> (r: Option<Socks5Target>)
    ensures
        match socks5_request_target(buf@) {
            Some(t) => r matches Some(x) && (x.host@, x.port, x.atyp) == t,
            None => r is None,
        },
{
    let n = buf.len();
    if n < 10 || buf[0] != SOCKS_VERSION || buf[1] != CMD_CONNECT {
        return None;
    }
    let atyp = buf[3];
    if atyp == ATYP_IPV4 {
        let host = dotted_exec(buf[4], buf[5], buf[6], buf[7]);
        let port = read_be16(buf, 8);
        Some(Socks5Target { host, port, atyp })
    } else if atyp == ATYP_DOMAIN {
        let dl = buf[4] as usize;
        if n < 5 + dl + 2 {
            return None;
        }
        let name = copy_range(buf, 5, 5 + dl);
        let host = string_from_utf8_lossy(name.as_slice());
        let port = read_be16(buf, 5 + dl);
        Some(Socks5Target { host, port, atyp })
    } else {
        None
    }
}

/// The URL a SOCKS5 destination is checked as.
pub open spec fn socks5_check_url(host: Seq<char>, port: u16) -> Seq<char> {
    if port == 443 {
        "https://"@ + host
    } else {
        "http://"@ + host
    }
}

fn prefixed_url(prefix: &str, host: &str) -> (r: String)
    ensures
        r@ == prefix@ + host@,
{
    let mut s = string_of(prefix);
    push_str(&mut s, host);
    s
}

/// The reply a SOCKS5 server sends with status `code` and an empty IPv4
/// binding.
pub open spec fn socks5_status_reply(code: u8) -> Seq<u8> {
    seq![5u8, code, 0u8, 1u8, 0u8, 0u8, 0u8, 0u8, 0u8, 0u8]
}

/// The reply with status `code` and an empty IPv4 binding.
pub fn socks5_reply(code: u8) -> (r: Vec<u8>)
    ensures
        r@ == socks5_status_reply(code),
{
    build_socks5_reply(code, "0.0.0.0", 0)
}

/// A SOCKS5 reply with status `reply_code`, the address 0.0.0.0 and the
/// port `bind_port`.
pub fn build_socks5_reply(reply_code: u8, _bind_addr: &str, bind_port: u16) -> (r: Vec<u8>)
    ensures
        r@ == seq![5u8, reply_code, 0u8, 1u8, 0u8, 0u8, 0u8, 0u8, (bind_port / 256) as u8, (
        bind_port % 256) as u8],
{
    let mut v: Vec<u8> = Vec::new();
    v.push(SOCKS_VERSION);
    v.push(reply_code);
    v.push(0x00);
    v.push(0x01);
    v.push(0);
    v.push(0);
    v.push(0);
    v.push(0);
    v.push((bind_port / 256) as u8);
    v.push((bind_port % 256) as u8);
    assert(v@ =~= seq![5u8, reply_code, 0u8, 1u8, 0u8, 0u8, 0u8, 0u8, (bind_port / 256) as u8, (
    bind_port % 256) as u8]);
    v
}

/// What the SOCKS5 proxy does with a checked destination.
pub enum Socks5Decision {
    /// Answer this refusal and close.
    Refuse(Vec<u8>),
    /// Look at the client's TLS ClientHello first (an address on port 443).
    PeekSni,
    /// Connect, naming the destination with this host.
    Proceed(String),
    /// Deciding hits a rule that cannot be matched.
    Fault,
}

pub enum Socks5Step {
    Refuse(Seq<u8>),
    PeekSni,
    Proceed(Seq<char>),
    Fault,
}

pub open spec fn socks5_decision_view(d: Socks5Decision) -> Socks5Step {
    match d {
        Socks5Decision::Refuse(v) => Socks5Step::Refuse(v@),
        Socks5Decision::PeekSni => Socks5Step::PeekSni,
        Socks5Decision::Proceed(h) => Socks5Step::Proceed(h@),
        Socks5Decision::Fault => Socks5Step::Fault,
    }
}

/// The decision on a destination at the clock reading `c`: refused
/// destinations get status 2; an address on port 443 is looked at again
/// through the server name of its ClientHello.
pub open spec fn socks5_step(
    cfg: FilterConfig,
    host: Seq<char>,
    port: u16,
    host_is_ip: bool,
    c: LocalClock,
) -> Socks5Step {
    let url = socks5_check_url(host, port);
    if !access_check_safe(cfg, host, url, c) {
        Socks5Step::Fault
    } else if !access_verdict(cfg, host, url, c).0 {
        Socks5Step::Refuse(socks5_status_reply(2))
    } else if host_is_ip && port == 443 {
        Socks5Step::PeekSni
    } else {
        Socks5Step::Proceed(host)
    }
}

/// Checks a SOCKS5 destination; `host_is_ip` says whether its host text
/// reads as an IP address.
pub fn socks5_decide(engine: &FilterEngine, target: &Socks5Target, host_is_ip: bool) -> (r:
    Socks5Decision)
    ensures
        exists|c: LocalClock|
            clock_valid(c) && socks5_decision_view(r) == #[trigger] socks5_step(
                engine.spec_config(),
                target.host@,
                target.port,
                host_is_ip,
                c,
            ),
{
    let url = if target.port == 443 {
        prefixed_url("https://", target.host.as_str())
    } else {
        prefixed_url("http://", target.host.as_str())
    };
    let verdict = engine.check_access_guarded(target.host.as_str(), url.as_str());
    let r = match verdict {
        None => Socks5Decision::Fault,
        Some((allowed, _)) => if !allowed {
            Socks5Decision::Refuse(socks5_reply(2))
        } else if host_is_ip && target.port == 443 {
            Socks5Decision::PeekSni
        } else {
            Socks5Decision::Proceed(target.host.clone())
        },
    };
    proof {
        let cfg = engine.spec_config();
        let c = choose|c: LocalClock|
            clock_valid(c) && #[trigger] access_check_safe(cfg, target.host@, url@, c) == (
            verdict is Some) && (verdict matches Some(v) ==> (v.0, opt_view(v.1)) == access_verdict(
                cfg,
                target.host@,
                url@,
                c,
            ));
        assert(socks5_decision_view(r) == socks5_step(cfg, target.host@, target.port, host_is_ip, c));
    }
    r
}

/// The decision once the client's ClientHello was looked at: its server
/// name, when there is one, is checked as an `https://` URL and becomes
/// the name the destination is reached by.
pub open spec fn socks5_sni_step(cfg: FilterConfig, host: Seq<char>, sni: Option<Seq<char>>, c: LocalClock) -> Socks5Step {
    match sni {
        None => Socks5Step::Proceed(host),
        Some(s) => if !access_check_safe(cfg, s, "https://"@ + s, c) {
            Socks5Step::Fault
        } else if !access_verdict(cfg, s, "https://"@ + s, c).0 {
            Socks5Step::Refuse(socks5_status_reply(2))
        } else {
            Socks5Step::Proceed(s)
        },
    }
}

/// Checks the server name found in a client's ClientHello.
pub fn socks5_decide_sni(engine: &FilterEngine, target: &Socks5Target, sni: Option<String>) -> (r:
    Socks5Decision)
    ensures
        exists|c: LocalClock|
            clock_valid(c) && socks5_decision_view(r) == #[trigger] socks5_sni_step(
                engine.spec_config(),
                target.host@,
                opt_view(sni),
                c,
            ),
{
    match sni {
        None => {
            let c = local_now();
            let r = Socks5Decision::Proceed(target.host.clone());
            assert(socks5_decision_view(r) == socks5_sni_step(engine.spec_config(), target.host@, None, c));
            r
        },
        Some(s) => {
            let url = prefixed_url("https://", s.as_str());
            let verdict = engine.check_access_guarded(s.as_str(), url.as_str());
            let ghost sv = s@;
            let r = match verdict {
                None => Socks5Decision::Fault,
                Some((allowed, _)) => if !allowed {
                    Socks5Decision::Refuse(socks5_reply(2))
                } else {
                    Socks5Decision::Proceed(s)
                },
            };
            proof {
                let cfg = engine.spec_config();
                let c = choose|c: LocalClock|
                    clock_valid(c) && #[trigger] access_check_safe(cfg, sv, url@, c) == (
                    verdict is Some) && (verdict matches Some(v) ==> (v.0, opt_view(v.1))
                        == access_verdict(cfg, sv, url@, c));
                assert(socks5_decision_view(r) == socks5_sni_step(cfg, target.host@, Some(sv), c));
            }
            r
        },
    }
}

/// The server name in the bytes peeked from a client, when more than five
/// were there.
pub fn sni_from_peek(buf: &[u8]) -> (r: Option<String>)
    ensures
        buf@.len() <= 5 ==> r is None,
        buf@.len() > 5 ==> opt_view(r) == sni_of(buf@),
{
    if buf.len() > 5 {
        SniExtractor::extract_sni(buf)
    } else {
        None
    }
}

/// The parts of a dotted address, each read as a byte or 0.
pub open spec fn octets_or_zeros(parts: Seq<Seq<char>>) -> Seq<u8>
    decreases parts.len(),
{
    if parts.len() == 0 {
        Seq::empty()
    } else {
        octets_or_zeros(parts.drop_last()).push(
            match parse_unsigned(parts.last(), 255) {
                Some(v) => v as u8,
                None => 0u8,
            },
        )
    }
}

/// The CONNECT request sent to an upstream SOCKS5 proxy: a domain name
/// (type 3, its length as one byte) or, otherwise, the dotted parts of the
/// host each as a byte; then the port.
pub open spec fn socks5_upstream_request_bytes(host: Seq<char>, port: u16, atyp: u8) -> Seq<u8> {
    seq![5u8, 1u8, 0u8] + if atyp == 3 {
        seq![3u8, (encode_utf8(host).len() % 256) as u8] + encode_utf8(host)
    } else {
        seq![1u8] + octets_or_zeros(split_char(host, '.'))
    } + seq![(port / 256) as u8, (port % 256) as u8]
}

/// Builds the CONNECT request for an upstream SOCKS5 proxy.
pub fn socks5_upstream_request(host: &str, port: u16, atyp: u8) -> (r: Vec<u8>)
    ensures
        r@ == socks5_upstream_request_bytes(host@, port, atyp),
{
    let mut req: Vec<u8> = Vec::new();
    req.push(SOCKS_VERSION);
    req.push(CMD_CONNECT);
    req.push(0x00);
    let ghost head = req@;
    if atyp == ATYP_DOMAIN {
        let bytes = str_bytes(host);
        req.push(ATYP_DOMAIN);
        req.push((bytes.len() % 256) as u8);
        append_bytes(&mut req, &bytes);
        assert(req@ =~= head + (seq![3u8, (encode_utf8(host@).len() % 256) as u8] + encode_utf8(
            host@,
        )));
    } else {
        req.push(ATYP_IPV4);
        let chars = str_to_chars(host);
        let parts = chars_split(chars.as_slice(), '.');
        let ghost views = chars_views(parts@);
        let ghost base = req@;
        let mut i: usize = 0;
        while i < parts.len()
            invariant
                i <= parts@.len(),
                views == chars_views(parts@),
                views == split_char(host@, '.'),
                req@ == base + octets_or_zeros(views.take(i as int)),
            decreases parts@.len() - i,
        {
            let b = match parse_unsigned_chars(parts[i].as_slice(), 255) {
                Some(v) => v as u8,
                None => 0u8,
            };
            proof {
                assert(views.take(i + 1).drop_last() =~= views.take(i as int));
            }
            req.push(b);
            i = i + 1;
            assert(req@ =~= base + octets_or_zeros(views.take(i as int)));
        }
        assert(views.take(parts@.len() as int) =~= views);
        assert(req@ =~= head + (seq![1u8] + octets_or_zeros(split_char(host@, '.'))));
    }
    let ghost mid = req@;
    req.push((port / 256) as u8);
    req.push((port % 256) as u8);
    assert(req@ =~= socks5_upstream_request_bytes(host@, port, atyp));
    req
}

/// How many bytes the upstream proxy's reply to that request is read as.
pub fn socks5_upstream_reply_len(host: &str, atyp: u8) -> (r: usize)
    requires
        encode_utf8(host@).len() + 7 <= usize::MAX,
    ensures
        atyp == 3 ==> r == 7 + encode_utf8(host@).len(),
        atyp != 3 ==> r == 10,
{
    if atyp == ATYP_DOMAIN {
        let n = str_bytes(host).len();
        7 + n
    } else {
        10
    }
}

/// What to do with the upstream proxy's reply to the CONNECT request.
#[derive(Debug, PartialEq, Eq, Structural)]
pub enum UpstreamReplyAction {
    /// Answer the client with a SOCKS5 reply of this status instead.
    Refuse(u8),
    /// Pass the reply on to the client and close: the upstream refused.
    ForwardAndClose,
    /// Pass the reply on to the client and relay the connection.
    ForwardAndRelay,
}

/// The action for the upstream reply `resp`: a reply that is not SOCKS
/// version 5 is refused with status 1 (general failure); otherwise it is
/// passed on, and the connection relayed only when its status is 0.
pub open spec fn upstream_reply_action(resp: Seq<u8>) -> UpstreamReplyAction {
    if resp.len() < 2 || resp[0] != 5 {
        UpstreamReplyAction::Refuse(1)
    } else if resp[1] == 0 {
        UpstreamReplyAction::ForwardAndRelay
    } else {
        UpstreamReplyAction::ForwardAndClose
    }
}

/// Decides what to do with the upstream proxy's reply.
pub fn socks5_upstream_reply_action(resp: &[u8]) -> (r: UpstreamReplyAction)
    ensures
        r == upstream_reply_action(resp@),
{
    if resp.len() < 2 || resp[0] != SOCKS_VERSION {
        UpstreamReplyAction::Refuse(0x01)
    } else if resp[1] == 0x00 {
        UpstreamReplyAction::ForwardAndRelay
    } else {
        UpstreamReplyAction::ForwardAndClose
    }
}

// ---------------------------------------------------------------------------
// HTTP proxy
// ---------------------------------------------------------------------------

/// Whether the request read (as lossy UTF-8) opens a CONNECT tunnel.
pub fn is_connect_request(buf: &[u8]) -> (r: bool)
    ensures
        r == starts_with(utf8_lossy(buf@), "CONNECT "@),
{
    let request = string_from_utf8_lossy(buf);
    let chars = str_to_chars(request.as_str());
    let prefix = str_to_chars("CONNECT ");
    chars_starts_with(chars.as_slice(), prefix.as_slice())
}

/// The `host:port` of a CONNECT request: its first word once every leading
/// `CONNECT ` is removed.
pub open spec fn connect_host_port(request: Seq<char>) -> Seq<char> {
    let w = words(trim_start_matches(request, "CONNECT "@));
    if w.len() > 0 {
        w[0]
    } else {
        Seq::empty()
    }
}

/// Host and port of a CONNECT target: split at the colon, the port read
/// from the second part (443 when absent or unreadable).
pub open spec fn connect_target(hp: Seq<char>) -> (Seq<char>, u16) {
    if index_of_char(hp, ':') is Some {
        let parts = split_char(hp, ':');
        (parts[0], if parts.len() >= 2 {
            port_or(parts[1], 443)
        } else {
            443
        })
    } else {
        (hp, 443)
    }
}

fn connect_host_port_chars(request: &[char]) -> (r: Vec<char>)
    ensures
        r@ == connect_host_port(request@),
{
    let prefix = str_to_chars("CONNECT ");
    let rest = chars_trim_start_matches(request, prefix.as_slice());
    let w = chars_words(rest.as_slice());
    if w.len() > 0 {
        assert(char_seqs(w@)[0] == w@[0]@);
        let first = &w[0];
        sub_chars(first.as_slice(), 0, first.len())
    } else {
        Vec::new()
    }
}

fn connect_target_chars(hp: &[char]) -> (r: (Vec<char>, u16))
    ensures
        (r.0@, r.1) == connect_target(hp@),
{
    match chars_find_char(hp, ':') {
        Some(_) => {
            let parts = chars_split(hp, ':');
            proof {
                crate::text::lemma_split_len(hp@, ':');
            }
            assert(chars_views(parts@)[0] == parts@[0]@);
            let host = sub_chars(parts[0].as_slice(), 0, parts[0].len());
            let port = if parts.len() >= 2 {
                assert(chars_views(parts@)[1] == parts@[1]@);
                port_or_chars(parts[1].as_slice(), 443)
            } else {
                443
            };
            (host, port)
        },
        None => (sub_chars(hp, 0, hp.len()), 443),
    }
}

/// What the HTTP proxy does with a CONNECT request.
pub enum HttpConnectAction {
    /// Answer this refusal page and close.
    Block(Vec<u8>),
    /// Tunnel to this host and port.
    Tunnel { host: String, port: u16 },
    /// Deciding hits a rule that cannot be matched.
    Fault,
}

pub enum HttpConnectStep {
    Block(Seq<u8>),
    Tunnel(Seq<char>, u16),
    Fault,
}

pub open spec fn http_connect_view(a: HttpConnectAction) -> HttpConnectStep {
    match a {
        HttpConnectAction::Block(v) => HttpConnectStep::Block(v@),
        HttpConnectAction::Tunnel { host, port } => HttpConnectStep::Tunnel(host@, port),
        HttpConnectAction::Fault => HttpConnectStep::Fault,
    }
}

/// The decision on a CONNECT request `buf` at the clock reading `c`: its
/// host is checked with the URL `https://host:port`; a refused one gets
/// the refusal page.
pub open spec fn http_connect_step(cfg: FilterConfig, buf: Seq<u8>, c: LocalClock) -> HttpConnectStep {
    let hp = connect_host_port(utf8_lossy(buf));
    let (host, port) = connect_target(hp);
    let url = "https://"@ + hp;
    if !access_check_safe(cfg, host, url, c) {
        HttpConnectStep::Fault
    } else {
        let v = access_verdict(cfg, host, url, c);
        if !v.0 {
            let html = blocked_html(host, v.1);
            HttpConnectStep::Block(encode_utf8(connect_head(encode_utf8(html).len()) + html))
        } else {
            HttpConnectStep::Tunnel(host, port)
        }
    }
}

/// Decides what to do with a CONNECT request read by the HTTP proxy.
pub fn http_connect_decision(engine: &FilterEngine, buf: &[u8]) -> (r: HttpConnectAction)
    ensures
        exists|c: LocalClock|
            clock_valid(c) && http_connect_view(r) == #[trigger] http_connect_step(
                engine.spec_config(),
                buf@,
                c,
            ),
{
    let request = string_from_utf8_lossy(buf);
    let chars = str_to_chars(request.as_str());
    let hp = connect_host_port_chars(chars.as_slice());
    let (host_chars, port) = connect_target_chars(hp.as_slice());
    let host = chars_to_string(host_chars.as_slice());
    let mut url = string_from_chars_prefixed("https://", hp.as_slice());
    let verdict = engine.check_access_guarded(host.as_str(), url.as_str());
    let r = match verdict {
        None => HttpConnectAction::Fault,
        Some((allowed, reason)) => if !allowed {
            let reason_str: Option<&str> = match &reason {
                Some(x) => Some(x.as_str()),
                None => None,
            };
            HttpConnectAction::Block(build_blocked_connect_response(host.as_str(), reason_str))
        } else {
            HttpConnectAction::Tunnel { host, port }
        },
    };
    proof {
        let cfg = engine.spec_config();
        let c = choose|c: LocalClock|
            clock_valid(c) && #[trigger] access_check_safe(cfg, host@, url@, c) == (verdict is Some)
                && (verdict matches Some(v) ==> (v.0, opt_view(v.1)) == access_verdict(
                cfg,
                host@,
                url@,
                c,
            ));
        assert(http_connect_view(r) == http_connect_step(cfg, buf@, c));
    }
    r
}

fn string_from_chars_prefixed(prefix: &str, v: &[char]) -> (r: String)
    ensures
        r@ == prefix@ + v@,
{
    let mut s = string_of(prefix);
    push_chars(&mut s, v);
    s
}

/// What the HTTP proxy does with a plain request.
pub enum HttpDirectAction {
    /// No host found: close.
    Drop,
    /// Answer this refusal page and close.
    Block(Vec<u8>),
    /// Connect to this host and port and pass the request on.
    Connect { host: String, port: u16 },
    /// Deciding hits a rule that cannot be matched.
    Fault,
}

pub enum HttpDirectStep {
    Drop,
    Block(Seq<u8>),
    Connect(Seq<char>, u16),
    Fault,
}

pub open spec fn http_direct_view(a: HttpDirectAction) -> HttpDirectStep {
    match a {
        HttpDirectAction::Drop => HttpDirectStep::Drop,
        HttpDirectAction::Block(v) => HttpDirectStep::Block(v@),
        HttpDirectAction::Connect { host, port } => HttpDirectStep::Connect(host@, port),
        HttpDirectAction::Fault => HttpDirectStep::Fault,
    }
}

/// The URL a plain request for `host` and `port` is checked as.
pub open spec fn direct_check_url(host: Seq<char>, port: u16) -> Seq<char> {
    "http://"@ + host + ":"@ + dec(port as nat)
}

/// The decision on a plain request `buf` at the clock reading `c`: the
/// host and port read from it are checked; a refused host gets the refusal
/// page in an uncacheable response.
pub open spec fn http_direct_step(cfg: FilterConfig, buf: Seq<u8>, c: LocalClock) -> HttpDirectStep {
    let request = utf8_lossy(buf);
    let (host, port) = request_target(lines_of(request), lowered(lines_of(request)));
    let url = direct_check_url(host, port);
    if host.len() == 0 {
        HttpDirectStep::Drop
    } else if !access_check_safe(cfg, host, url, c) {
        HttpDirectStep::Fault
    } else {
        let v = access_verdict(cfg, host, url, c);
        if !v.0 {
            let html = blocked_html(host, v.1);
            HttpDirectStep::Block(
                encode_utf8(no_cache_head(encode_utf8(html).len())) + encode_utf8(html),
            )
        } else {
            HttpDirectStep::Connect(host, port)
        }
    }
}

/// Decides what to do with a plain request read by the HTTP proxy.
pub fn http_direct_decision(engine: &FilterEngine, buf: &[u8]) -> (r: HttpDirectAction)
    ensures
        exists|c: LocalClock|
            clock_valid(c) && http_direct_view(r) == #[trigger] http_direct_step(
                engine.spec_config(),
                buf@,
                c,
            ),
{
    let request = string_from_utf8_lossy(buf);
    let (host, port) = extract_host_and_port_from_request(request.as_str());
    if host.as_str().is_empty() {
        let c = local_now();
        assert(http_direct_step(engine.spec_config(), buf@, c) == HttpDirectStep::Drop);
        return HttpDirectAction::Drop;
    }
    let mut url = string_of("http://");
    push_str(&mut url, host.as_str());
    push_str(&mut url, ":");
    let p = u64_to_dec(port as u64);
    push_str(&mut url, p.as_str());
    let verdict = engine.check_access_guarded(host.as_str(), url.as_str());
    let r = match verdict {
        None => HttpDirectAction::Fault,
        Some((allowed, reason)) => if !allowed {
            let reason_str: Option<&str> = match &reason {
                Some(x) => Some(x.as_str()),
                None => None,
            };
            let html = build_blocked_html(host.as_str(), reason_str);
            HttpDirectAction::Block(build_redirect_response(html.as_str()))
        } else {
            HttpDirectAction::Connect { host, port }
        },
    };
    proof {
        let cfg = engine.spec_config();
        let c = choose|c: LocalClock|
            clock_valid(c) && #[trigger] access_check_safe(cfg, host@, url@, c) == (verdict is Some)
                && (verdict matches Some(v) ==> (v.0, opt_view(v.1)) == access_verdict(
                cfg,
                host@,
                url@,
                c,
            ));
        assert(http_direct_view(r) == http_direct_step(cfg, buf@, c));
    }
    r
}

/// `host:port`, the address a connection is opened to.
pub fn target_address(host: &str, port: u16) -> (r: String)
    ensures
        r@ == host@ + ":"@ + dec(port as nat),
{
    let mut s = string_of(host);
    push_str(&mut s, ":");
    let p = u64_to_dec(port as u64);
    push_str(&mut s, p.as_str());
    s
}

/// The CONNECT request sent to an upstream HTTP proxy.
pub fn upstream_connect_request(host: &str, port: u16) -> (r: String)
    ensures
        r@ == "CONNECT "@ + host@ + ":"@ + dec(port as nat) + "\r\n\r\n"@,
{
    let mut s = string_of("CONNECT ");
    push_str(&mut s, host);
    push_str(&mut s, ":");
    let p = u64_to_dec(port as u64);
    push_str(&mut s, p.as_str());
    push_str(&mut s, "\r\n\r\n");
    s
}

/// The answer that opens a tunnel to the client.
pub const CONNECTION_ESTABLISHED: &'static str = "HTTP/1.1 200 Connection Established\r\n\r\n";

/// The answer when the target cannot be reached.
pub const BAD_GATEWAY: &'static str = "HTTP/1.1 502 Bad Gateway\r\nContent-Length: 0\r\nConnection: close\r\n\r\n";

/// The answer when the target does not answer in time.
pub const GATEWAY_TIMEOUT: &'static str = "HTTP/1.1 504 Gateway Timeout\r\nContent-Length: 0\r\nConnection: close\r\n\r\n";

} // verus!
