//! The block page server: the page shown in place of a refused site, the
//! response that carries it, and how the refused domain is read out of the
//! redirected request.
use vstd::prelude::*;
use vstd::utf8::encode_utf8;
use crate::proxy::lowered;
use crate::scan::{
    chars_trim, chars_trim_start_matches, chars_words, char_seqs, lines_of, lowercase, str_bytes,
    str_to_lowercase, trim, trim_start_matches, words,
};
use crate::sni_filter::{string_from_utf8_lossy, utf8_lossy};
use crate::text::{
    chars_find_char, chars_split, chars_starts_with, chars_to_string, chars_views, dec,
    index_of_char, lemma_split_len, push_str, split_char, starts_with, str_to_chars, string_of,
    sub_chars, u64_to_dec,
};

verus! {

broadcast use vstd::string::group_string_axioms;

pub const BLOCK_SERVER_PORT: u16 = 8888;

/// The block page up to the refused domain.
pub const BLOCK_PAGE_HEAD: &'static str = r#"<!DOCTYPE html>
<html lang="zh-CN">
<head>
    <meta charset="UTF-8">
    <meta name="viewport" content="width=device-width, initial-scale=1.0">
    <title>访问受限 - 成长守护</title>
    <style>
        * { margin: 0; padding: 0; box-sizing: border-box; }
        body {
            font-family: -apple-system, BlinkMacSystemFont, 'Segoe UI', Roboto, sans-serif;
            background: linear-gradient(135deg, #1e3a5f 0%, #0f172a 100%);
            min-height: 100vh;
            display: flex;
            align-items: center;
            justify-content: center;
            padding: 20px;
        }
        .container {
            background: rgba(255, 255, 255, 0.98);
            border-radius: 24px;
            padding: 48px;
            max-width: 520px;
            width: 100%;
            text-align: center;
            box-shadow: 0 25px 50px -12px rgba(0, 0, 0, 0.4);
            animation: fadeIn 0.5s ease-out;
        }
        @keyframes fadeIn {
            from { opacity: 0; transform: translateY(-20px); }
            to { opacity: 1; transform: translateY(0); }
        }
        .icon {
            width: 100px;
            height: 100px;
            background: linear-gradient(135deg, #f59e0b, #f97316);
            border-radius: 50%;
            display: flex;
            align-items: center;
            justify-content: center;
            margin: 0 auto 28px;
            box-shadow: 0 10px 30px rgba(245, 158, 11, 0.3);
        }
        .icon svg {
            width: 50px;
            height: 50px;
            fill: white;
        }
        h1 {
            color: #1e293b;
            font-size: 32px;
            font-weight: 700;
            margin-bottom: 12px;
        }
        .subtitle {
            color: #64748b;
            font-size: 18px;
            margin-bottom: 32px;
            line-height: 1.6;
        }
        .info-box {
            background: #f1f5f9;
            border-radius: 16px;
            padding: 24px;
            margin-bottom: 28px;
        }
        .domain {
            color: #ef4444;
            font-weight: 700;
            font-size: 20px;
            word-break: break-all;
            margin-bottom: 8px;
        }
        .reason {
            color: #64748b;
            font-size: 15px;
        }
        .tips {
            background: #fef3c7;
            border-left: 4px solid #f59e0b;
            border-radius: 0 12px 12px 0;
            padding: 20px;
            text-align: left;
            margin-bottom: 24px;
        }
        .tips h3 {
            color: #92400e;
            font-size: 15px;
            font-weight: 600;
            margin-bottom: 12px;
            display: flex;
            align-items: center;
            gap: 8px;
        }
        .tips ul {
            color: #78350f;
            font-size: 14px;
            padding-left: 0;
            list-style: none;
        }
        .tips li {
            margin-bottom: 8px;
            padding-left: 24px;
            position: relative;
        }
        .tips li:before {
            content: '✓';
            position: absolute;
            left: 0;
            color: #f59e0b;
            font-weight: bold;
        }
        .footer {
            margin-top: 28px;
            color: #94a3b8;
            font-size: 13px;
        }
        .back-link {
            display: inline-block;
            margin-top: 20px;
            padding: 12px 28px;
            background: linear-gradient(135deg, #10b981, #059669);
            color: white;
            text-decoration: none;
            border-radius: 50px;
            font-weight: 600;
            transition: transform 0.2s, box-shadow 0.2s;
        }
        .back-link:hover {
            transform: translateY(-2px);
            box-shadow: 0 8px 20px rgba(16, 185, 129, 0.3);
        }
    </style>
</head>
<body>
    <div class="container">
        <div class="icon">
            <svg viewBox="0 0 24 24"><path d="M12 1L3 5v6c0 5.55 3.84 10.74 9 12 5.16-1.26 9-6.45 9-12V5l-9-4zm0 10.99h7c-.53 4.12-3.28 7.79-7 8.94V12H5V6.3l7-3.11v8.8z"/></svg>
        </div>
        <h1>此网站暂时无法访问</h1>
        <p class="subtitle">成长守护为你过滤了不适宜的内容<br>帮助你安全、健康地探索互联网世界</p>
        
        <div class="info-box">
            <div class="domain">"#;

/// The block page after the refused domain.
pub const BLOCK_PAGE_TAIL: &'static str = r#"</div>
            <div class="reason">该网站被成长守护拦截</div>
        </div>
        
        <div class="tips">
            <h3>💡 温馨提示</h3>
            <ul>
                <li>可以尝试访问首页或搜索其他有益的内容</li>
                <li>发现有价值的在线学习资源</li>
                <li>如有需要，请联系家长协助</li>
                <li>推荐访问「探索精彩」页面发现优质内容</li>
            </ul>
        </div>
        
        <a href="javascript:history.back()" class="back-link">← 返回上一页</a>
        
        <div class="footer">
            成长守护 · 保护每一次探索
        </div>
    </div>
</body>
</html>"#;

/// The name shown when no domain can be read from the request.
pub const UNKNOWN_SITE: &'static str = "未知网站";

/// The port the block page server listens on.
pub fn get_block_server_port() -> (r: u16)
    ensures
        r == 8888,
{
    BLOCK_SERVER_PORT
}

/// The address of the block page server.
pub fn get_block_server_url() -> (r: String)
    ensures
        r@ == "http://127.0.0.1:"@ + dec(8888),
{
    let mut s = string_of("http://127.0.0.1:");
    let p = u64_to_dec(BLOCK_SERVER_PORT as u64);
    push_str(&mut s, p.as_str());
    s
}

/// The block page for `domain`.
pub open spec fn block_page(domain: Seq<char>) -> Seq<char> {
    BLOCK_PAGE_HEAD@ + domain + BLOCK_PAGE_TAIL@
}

/// Builds the block page for `domain`.
pub fn build_block_page_html(domain: &str) -> (r: String)
    ensures
        r@ == block_page(domain@),
{
    let mut s = string_of(BLOCK_PAGE_HEAD);
    push_str(&mut s, domain);
    push_str(&mut s, BLOCK_PAGE_TAIL);
    s
}

/// A 200 response carrying the page `html` (of `len` bytes).
pub open spec fn http_response_text(html: Seq<char>, len: nat) -> Seq<char> {
    "HTTP/1.1 200 OK\r\nContent-Type: text/html; charset=utf-8\r\nContent-Length: "@ + dec(len)
        + "\r\nConnection: close\r\nCache-Control: no-cache\r\n\r\n"@ + html
}

/// Wraps a page in a 200 response.
pub fn build_http_response(html: &str) -> (r: String)
    ensures
        r@ == http_response_text(html@, encode_utf8(html@).len()),
{
    let n = str_bytes(html).len();
    let mut s = string_of(
        "HTTP/1.1 200 OK\r\nContent-Type: text/html; charset=utf-8\r\nContent-Length: ",
    );
    let len = u64_to_dec(n as u64);
    push_str(&mut s, len.as_str());
    push_str(&mut s, "\r\nConnection: close\r\nCache-Control: no-cache\r\n\r\n");
    push_str(&mut s, html);
    s
}

/// A 502 response carrying the page `html` (of `len` bytes), the answer to
/// a CONNECT.
pub open spec fn bad_gateway_text(html: Seq<char>, len: nat) -> Seq<char> {
    "HTTP/1.1 502 Bad Gateway\r\nContent-Type: text/html; charset=utf-8\r\nContent-Length: "@
        + dec(len) + "\r\nConnection: close\r\nProxy-Connection: close\r\n\r\n"@ + html
}

fn build_bad_gateway_response(html: &str) -> (r: String)
    ensures
        r@ == bad_gateway_text(html@, encode_utf8(html@).len()),
{
    let n = str_bytes(html).len();
    let mut s = string_of(
        "HTTP/1.1 502 Bad Gateway\r\nContent-Type: text/html; charset=utf-8\r\nContent-Length: ",
    );
    let len = u64_to_dec(n as u64);
    push_str(&mut s, len.as_str());
    push_str(&mut s, "\r\nConnection: close\r\nProxy-Connection: close\r\n\r\n");
    push_str(&mut s, html);
    s
}

// ---------------------------------------------------------------------------
// The refused domain
// ---------------------------------------------------------------------------

/// The domain of the first `Host:` header (compared lower-cased) from line
/// `i` on that has a second colon-separated part: that part trimmed, cut
/// at a colon.
pub open spec fn host_header_domain(lines: Seq<Seq<char>>, lows: Seq<Seq<char>>, i: int) -> Option<
    Seq<char>,
>
    decreases lines.len() - i,
{
    if i < 0 || i >= lines.len() {
        None
    } else if i < lows.len() && starts_with(lows[i], "host:"@) && split_char(lines[i], ':').len()
        >= 2 {
        let h = trim(split_char(lines[i], ':')[1]);
        Some(
            if index_of_char(h, ':') is Some {
                split_char(h, ':')[0]
            } else {
                h
            },
        )
    } else {
        host_header_domain(lines, lows, i + 1)
    }
}

/// The host of the first `GET`/`POST` request line, from line `i` on,
/// whose URL starts with `http://`: the URL without every leading
/// `http://`, cut at the first slash.
pub open spec fn request_line_domain(lines: Seq<Seq<char>>, i: int) -> Option<Seq<char>>
    decreases lines.len() - i,
{
    if i < 0 || i >= lines.len() {
        None
    } else {
        let line = lines[i];
        let w = words(line);
        if (starts_with(line, "GET "@) || starts_with(line, "POST "@)) && w.len() >= 2
            && starts_with(w[1], "http://"@) {
            Some(split_char(trim_start_matches(w[1], "http://"@), '/')[0])
        } else {
            request_line_domain(lines, i + 1)
        }
    }
}

/// The domain a redirected request was for: from its `Host:` header, else
/// from its request line, else "unknown site".
pub open spec fn block_request_domain(lines: Seq<Seq<char>>, lows: Seq<Seq<char>>) -> Seq<char> {
    match host_header_domain(lines, lows, 0) {
        Some(d) => d,
        None => match request_line_domain(lines, 0) {
            Some(d) => d,
            None => UNKNOWN_SITE@,
        },
    }
}

fn first_piece(s: &[char], c: char) -> (r: Vec<char>)
    ensures
        r@ == split_char(s@, c)[0],
{
    let parts = chars_split(s, c);
    proof {
        lemma_split_len(s@, c);
    }
    assert(chars_views(parts@)[0] == parts@[0]@);
    sub_chars(parts[0].as_slice(), 0, parts[0].len())
}

/// The domain a redirected request was for, given its lines and the same
/// lines lower-cased.
pub fn domain_from_request_lines(lines: &Vec<Vec<char>>, lows: &Vec<Vec<char>>) -> (r: String)
    ensures
        r@ == block_request_domain(char_seqs(lines@), char_seqs(lows@)),
{
    let ghost ls = char_seqs(lines@);
    let ghost lw = char_seqs(lows@);
    let host_prefix = str_to_chars("host:");
    let get = str_to_chars("GET ");
    let post = str_to_chars("POST ");
    let http = str_to_chars("http://");
    proof {
        reveal_strlit("host:");
        reveal_strlit("GET ");
        reveal_strlit("POST ");
        reveal_strlit("http://");
    }
    let mut i: usize = 0;
    while i < lines.len()
        invariant
            i <= lines@.len(),
            ls == char_seqs(lines@),
            lw == char_seqs(lows@),
            host_prefix@ == "host:"@,
            host_header_domain(ls, lw, 0) == host_header_domain(ls, lw, i as int),
        decreases lines@.len() - i,
    {
        assert(ls[i as int] == lines@[i as int]@);
        if i < lows.len() && chars_starts_with(lows[i].as_slice(), host_prefix.as_slice()) {
            assert(lw[i as int] == lows@[i as int]@);
            let parts = chars_split(lines[i].as_slice(), ':');
            if parts.len() >= 2 {
                assert(chars_views(parts@)[1] == parts@[1]@);
                let h = chars_trim(parts[1].as_slice());
                let d = match chars_find_char(h.as_slice(), ':') {
                    Some(_) => first_piece(h.as_slice(), ':'),
                    None => h,
                };
                return chars_to_string(d.as_slice());
            }
        }
        proof {
            if i < lows@.len() {
                assert(lw[i as int] == lows@[i as int]@);
            }
        }
        i = i + 1;
    }
    let mut j: usize = 0;
    while j < lines.len()
        invariant
            j <= lines@.len(),
            ls == char_seqs(lines@),
            lw == char_seqs(lows@),
            host_header_domain(ls, lw, 0) is None,
            get@ == "GET "@,
            post@ == "POST "@,
            http@ == "http://"@,
            request_line_domain(ls, 0) == request_line_domain(ls, j as int),
        decreases lines@.len() - j,
    {
        assert(ls[j as int] == lines@[j as int]@);
        let line = lines[j].as_slice();
        if chars_starts_with(line, get.as_slice()) || chars_starts_with(line, post.as_slice()) {
            let w = chars_words(line);
            if w.len() >= 2 {
                assert(char_seqs(w@)[1] == w@[1]@);
                if chars_starts_with(w[1].as_slice(), http.as_slice()) {
                    let rest = chars_trim_start_matches(w[1].as_slice(), http.as_slice());
                    let d = first_piece(rest.as_slice(), '/');
                    return chars_to_string(d.as_slice());
                }
            }
        }
        j = j + 1;
    }
    string_of(UNKNOWN_SITE)
}

/// The domain a redirected request was for.
pub fn extract_domain_from_request(request: &str) -> (r: String)
    ensures
        r@ == block_request_domain(lines_of(request@), lowered(lines_of(request@))),
{
    let chars = str_to_chars(request);
    let lines = crate::scan::chars_lines(chars.as_slice());
    let ghost ls = char_seqs(lines@);
    let mut lows: Vec<Vec<char>> = Vec::new();
    let mut i: usize = 0;
    while i < lines.len()
        invariant
            i <= lines@.len(),
            ls == char_seqs(lines@),
            char_seqs(lows@) == lowered(ls.take(i as int)),
        decreases lines@.len() - i,
    {
        let line = chars_to_string(lines[i].as_slice());
        let low = str_to_lowercase(line.as_str());
        let low_chars = str_to_chars(low.as_str());
        proof {
            assert(ls[i as int] == lines@[i as int]@);
            assert(char_seqs(lows@.push(low_chars)) =~= char_seqs(lows@).push(low_chars@));
            assert(lowered(ls.take(i + 1)) =~= lowered(ls.take(i as int)).push(
                lowercase(ls[i as int]),
            ));
        }
        lows.push(low_chars);
        i = i + 1;
    }
    assert(ls.take(lines@.len() as int) =~= ls);
    domain_from_request_lines(&lines, &lows)
}

/// The answer of the block page server to the request it read (as lossy
/// UTF-8): a 502 carrying the block page for a CONNECT, a 200 otherwise.
pub open spec fn block_server_answer(buf: Seq<u8>) -> Seq<char> {
    let request = utf8_lossy(buf);
    let html = block_page(block_request_domain(lines_of(request), lowered(lines_of(request))));
    if starts_with(request, "CONNECT "@) {
        bad_gateway_text(html, encode_utf8(html).len())
    } else {
        http_response_text(html, encode_utf8(html).len())
    }
}

/// The block page server's answer to a request.
pub fn block_server_response(buf: &[u8]) -> (r: Vec<u8>)
    ensures
        r@ == encode_utf8(block_server_answer(buf@)),
{
    let request = string_from_utf8_lossy(buf);
    let domain = extract_domain_from_request(request.as_str());
    let html = build_block_page_html(domain.as_str());
    let chars = str_to_chars(request.as_str());
    let prefix = str_to_chars("CONNECT ");
    let text = if chars_starts_with(chars.as_slice(), prefix.as_slice()) {
        build_bad_gateway_response(html.as_str())
    } else {
        build_http_response(html.as_str())
    };
    str_bytes(text.as_str())
}

} // verus!
