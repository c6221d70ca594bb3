//! The logic behind the proxy-related commands: recognising proxy
//! applications in the system's listings, the shell commands and profile
//! blocks that set proxy variables, and the system proxy settings read back
//! and compared.
use vstd::prelude::*;
use crate::models::opt_view;
use crate::proxy::port_or;
use crate::scan::{
    chars_lines, chars_replace, chars_trim, chars_words, char_seqs, lines_of, lowercase, replace_all,
    str_to_lowercase, strip_cr, trim, words,
};
use crate::text::{
    chars_contains, chars_split, chars_to_string, chars_views, contains_seq, dec,
    index_of_char, is_digit, lemma_dec_digits, lemma_index_of_char, occurs_at, parse_unsigned,
    chars_starts_with, parse_unsigned_chars, push_str, split_char, starts_with, str_eq, str_to_chars,
    string_of, u64_to_dec,
};

verus! {

broadcast use vstd::string::group_string_axioms;

// ---------------------------------------------------------------------------
// Types
// ---------------------------------------------------------------------------

#[derive(Debug, Clone)]
pub struct ProxyApp {
    pub name: String,
    pub host: String,
    pub http_port: Option<u16>,
    pub socks_port: Option<u16>,
    pub all_ports: Vec<u16>,
    pub pid: Option<u32>,
    pub tested_http: Option<bool>,
    pub tested_socks: Option<bool>,
    pub tested: Option<bool>,
    pub latency_ms: Option<u64>,
}

#[derive(Debug, Clone)]
pub struct ProxyCommand {
    pub shell_type: String,
    pub set_command: String,
    pub unset_command: String,
}

#[derive(Debug, Clone)]
pub struct ProxyTestResult {
    pub success: bool,
    pub latency_ms: Option<u64>,
    pub error: Option<String>,
}

// ---------------------------------------------------------------------------
// Application names
// ---------------------------------------------------------------------------

/// The display name of a proxy application, from its process name and the
/// same name lower-cased.
pub open spec fn app_name_for(process: Seq<char>, lower: Seq<char>) -> Seq<char> {
    if contains_seq(lower, "lantern"@) {
        "Lantern"@
    } else if contains_seq(lower, "clash"@) {
        "Clash"@
    } else if contains_seq(lower, "v2ray"@) || contains_seq(lower, "v2fly"@) {
        "V2Ray"@
    } else if contains_seq(lower, "shadowsocks"@) || contains_seq(lower, "ss-local"@) {
        "Shadowsocks"@
    } else if contains_seq(lower, "surge"@) {
        "Surge"@
    } else if contains_seq(lower, "quantumult"@) {
        "Quantumult"@
    } else {
        process
    }
}

fn has(s: &[char], word: &str) -> (r: bool)
    ensures
        r == contains_seq(s@, word@),
{
    let w = str_to_chars(word);
    chars_contains(s, w.as_slice())
}

/// The display name of a proxy application, given its process name and the
/// same name lower-cased.
pub fn app_name_from_lowered(process: &str, lower: &str) -> (r: String)
    ensures
        r@ == app_name_for(process@, lower@),
{
    let l = str_to_chars(lower);
    if has(l.as_slice(), "lantern") {
        string_of("Lantern")
    } else if has(l.as_slice(), "clash") {
        string_of("Clash")
    } else if has(l.as_slice(), "v2ray") || has(l.as_slice(), "v2fly") {
        string_of("V2Ray")
    } else if has(l.as_slice(), "shadowsocks") || has(l.as_slice(), "ss-local") {
        string_of("Shadowsocks")
    } else if has(l.as_slice(), "surge") {
        string_of("Surge")
    } else if has(l.as_slice(), "quantumult") {
        string_of("Quantumult")
    } else {
        string_of(process)
    }
}

/// The display name of the proxy application run by the process `process`.
pub fn detect_app_name(process: &str) -> (r: String)
    ensures
        r@ == app_name_for(process@, lowercase(process@)),
{
    let lower = str_to_lowercase(process);
    app_name_from_lowered(process, lower.as_str())
}

/// The name `ps aux` output (already lower-cased) points at: the first line
/// naming lantern, clash or v2ray, from line `i` on.
pub open spec fn ps_app_name(lines: Seq<Seq<char>>, i: int) -> Seq<char>
    decreases lines.len() - i,
{
    if i < 0 || i >= lines.len() {
        "Unknown"@
    } else if contains_seq(lines[i], "lantern"@) {
        "Lantern"@
    } else if contains_seq(lines[i], "clash"@) {
        "Clash"@
    } else if contains_seq(lines[i], "v2ray"@) {
        "V2Ray"@
    } else {
        ps_app_name(lines, i + 1)
    }
}

/// The proxy application that lower-cased `ps aux` output shows running.
pub fn detect_app_name_from_ps(ps: &str) -> (r: String)
    ensures
        r@ == ps_app_name(lines_of(ps@), 0),
{
    let chars = str_to_chars(ps);
    let lines = chars_lines(chars.as_slice());
    let ghost ls = char_seqs(lines@);
    let mut i: usize = 0;
    while i < lines.len()
        invariant
            i <= lines@.len(),
            ls == char_seqs(lines@),
            ls == lines_of(ps@),
            ps_app_name(ls, 0) == ps_app_name(ls, i as int),
        decreases lines@.len() - i,
    {
        assert(ls[i as int] == lines@[i as int]@);
        let line = lines[i].as_slice();
        if has(line, "lantern") {
            return string_of("Lantern");
        } else if has(line, "clash") {
            return string_of("Clash");
        } else if has(line, "v2ray") {
            return string_of("V2Ray");
        }
        i = i + 1;
    }
    string_of("Unknown")
}

/// The name lower-cased `tasklist /FO CSV /NH` output gives the process
/// `pid`, from line `i` on: a line whose second comma-separated field,
/// trimmed, reads as `pid` and that names lantern, clash or v2ray.
pub open spec fn tasklist_app_name(lines: Seq<Seq<char>>, pid: u32, i: int) -> Seq<char>
    decreases lines.len() - i,
{
    if i < 0 || i >= lines.len() {
        "Unknown"@
    } else {
        let line = lines[i];
        let parts = split_char(line, ',');
        if parts.len() >= 2 && parse_unsigned(trim(parts[1]), 4294967295) == Some(pid as nat) {
            if contains_seq(line, "lantern"@) {
                "Lantern"@
            } else if contains_seq(line, "clash"@) {
                "Clash"@
            } else if contains_seq(line, "v2ray"@) {
                "V2Ray"@
            } else {
                tasklist_app_name(lines, pid, i + 1)
            }
        } else {
            tasklist_app_name(lines, pid, i + 1)
        }
    }
}

/// The proxy application lower-cased `tasklist` output names for `pid`.
pub fn detect_app_name_from_tasklist(tasklist: &str, pid: u32) -> (r: String)
    ensures
        r@ == tasklist_app_name(lines_of(tasklist@), pid, 0),
{
    let chars = str_to_chars(tasklist);
    let lines = chars_lines(chars.as_slice());
    let ghost ls = char_seqs(lines@);
    let mut i: usize = 0;
    while i < lines.len()
        invariant
            i <= lines@.len(),
            ls == char_seqs(lines@),
            ls == lines_of(tasklist@),
            tasklist_app_name(ls, pid, 0) == tasklist_app_name(ls, pid, i as int),
        decreases lines@.len() - i,
    {
        assert(ls[i as int] == lines@[i as int]@);
        let line = lines[i].as_slice();
        let parts = chars_split(line, ',');
        if parts.len() >= 2 {
            assert(chars_views(parts@)[1] == parts@[1]@);
            let field = chars_trim(parts[1].as_slice());
            match parse_unsigned_chars(field.as_slice(), 4294967295) {
                Some(v) => {
                    if v == pid as u64 {
                        if has(line, "lantern") {
                            return string_of("Lantern");
                        } else if has(line, "clash") {
                            return string_of("Clash");
                        } else if has(line, "v2ray") {
                            return string_of("V2Ray");
                        }
                    }
                },
                None => {},
            }
        }
        i = i + 1;
    }
    string_of("Unknown")
}

/// The result of a proxy test whose request came back with the HTTP status
/// `code` after `latency_ms` milliseconds: a success for a status from 200
/// to 399, else a failure naming the port and the status.
pub fn http_test_outcome(port: u16, code: u16, latency_ms: u64) -> (r: ProxyTestResult)
    ensures
        r.success == (200 <= code < 400),
        r.success ==> r.latency_ms == Some(latency_ms) && r.error is None,
        !r.success ==> r.latency_ms is None && opt_view(r.error) == Some(
            "["@ + dec(port as nat) + "] HTTP "@ + dec(code as nat),
        ),
{
    if 200 <= code && code < 400 {
        ProxyTestResult { success: true, latency_ms: Some(latency_ms), error: None }
    } else {
        let mut e = string_of("[");
        push_str(&mut e, u64_to_dec(port as u64).as_str());
        push_str(&mut e, "] HTTP ");
        push_str(&mut e, u64_to_dec(code as u64).as_str());
        ProxyTestResult { success: false, latency_ms: None, error: Some(e) }
    }
}

// ---------------------------------------------------------------------------
// Shell commands
// ---------------------------------------------------------------------------

/// `scheme://127.0.0.1:port`.
pub open spec fn local_url(scheme: Seq<char>, port: u16) -> Seq<char> {
    scheme + "://127.0.0.1:"@ + dec(port as nat)
}

pub open spec fn powershell_set(p: u16) -> Seq<char> {
    "$env:HTTP_PROXY=\""@ + local_url("http"@, p) + "\"; $env:HTTPS_PROXY=\""@ + local_url(
        "http"@,
        p,
    ) + "\"; echo \"Proxy configured: HTTP 127.0.0.1:"@ + dec(p as nat) + "\""@
}

pub open spec fn cmd_set(p: u16) -> Seq<char> {
    "set HTTP_PROXY="@ + local_url("http"@, p) + " && set HTTPS_PROXY="@ + local_url("http"@, p)
        + " && echo Proxy configured: HTTP 127.0.0.1:"@ + dec(p as nat)
}

pub open spec fn bash_exports(h: u16) -> Seq<char> {
    "export http_proxy=\""@ + local_url("http"@, h) + "\" && export https_proxy=\""@ + local_url(
        "http"@,
        h,
    ) + "\" && export HTTP_PROXY=\""@ + local_url("http"@, h) + "\" && export HTTPS_PROXY=\""@
        + local_url("http"@, h) + "\""@
}

pub open spec fn bash_set(h: u16, socks: Option<u16>) -> Seq<char> {
    bash_exports(h) + match socks {
        Some(s) => " && export ALL_PROXY=\""@ + local_url("socks5"@, s) + "\""@,
        None => Seq::empty(),
    } + " && echo \"Proxy configured: HTTP 127.0.0.1:"@ + dec(h as nat) + "\""@
}

/// The commands that set and unset the proxy variables for `shell`, using
/// the HTTP and SOCKS ports of the first application.
pub open spec fn proxy_command_text(http: Option<u16>, socks: Option<u16>, shell: Seq<char>) -> (
    Seq<char>,
    Seq<char>,
    Seq<char>,
) {
    let none = "echo No proxy port configured"@;
    if shell == "powershell"@ {
        (
            "powershell"@,
            match http {
                Some(p) => powershell_set(p),
                None => none,
            },
            "$env:HTTP_PROXY=$null; $env:HTTPS_PROXY=$null; echo \"Proxy unset\""@,
        )
    } else if shell == "cmd"@ {
        (
            "cmd"@,
            match http {
                Some(p) => cmd_set(p),
                None => none,
            },
            "set HTTP_PROXY= && set HTTPS_PROXY= && echo Proxy unset"@,
        )
    } else {
        (
            "bash"@,
            match http {
                Some(h) => bash_set(h, socks),
                None => none,
            },
            "unset http_proxy https_proxy HTTP_PROXY HTTPS_PROXY ALL_PROXY && echo \"Proxy unset\""@,
        )
    }
}

/// The HTTP and SOCKS ports of the first application, none without one.
pub open spec fn first_ports(apps: Seq<ProxyApp>) -> (Option<u16>, Option<u16>) {
    if apps.len() > 0 {
        (apps[0].http_port, apps[0].socks_port)
    } else {
        (None, None)
    }
}

/// The proxy commands for the applications `apps` in `shell`.
pub open spec fn proxy_command_of(apps: Seq<ProxyApp>, shell: Seq<char>) -> (Seq<char>, Seq<char>, Seq<char>) {
    proxy_command_text(first_ports(apps).0, first_ports(apps).1, shell)
}

/// The shell a command is written for: PowerShell, cmd, or else bash.
pub open spec fn shell_kind(shell: Seq<char>) -> Seq<char> {
    if shell == "powershell"@ {
        "powershell"@
    } else if shell == "cmd"@ {
        "cmd"@
    } else {
        "bash"@
    }
}

proof fn lemma_free_of_concat(a: Seq<char>, b: Seq<char>, c: char)
    requires
        free_of(a, c),
        free_of(b, c),
    ensures
        free_of(a + b, c),
{
    assert forall|i: int| 0 <= i < (a + b).len() implies (a + b)[i] != c by {
        if i >= a.len() {
            assert((a + b)[i] == b[i - a.len()]);
        }
    }
}

/// Text without the letter `L` does not name `ALL_PROXY`.
proof fn lemma_no_all_proxy(s: Seq<char>)
    requires
        free_of(s, 'L'),
    ensures
        !contains_seq(s, "ALL_PROXY"@),
{
    reveal_strlit("ALL_PROXY");
    if contains_seq(s, "ALL_PROXY"@) {
        let i = choose|i: int| occurs_at(s, "ALL_PROXY"@, i);
        assert(s.subrange(i, i + 9)[1] == s[i + 1]);
    }
}

/// A bash set command names `ALL_PROXY` exactly when a SOCKS port is given.
proof fn lemma_bash_set_all_proxy(h: u16, socks: Option<u16>)
    ensures
        contains_seq(bash_set(h, socks), "ALL_PROXY"@) <==> socks is Some,
{
    reveal_strlit("export http_proxy=\"");
    reveal_strlit("\" && export https_proxy=\"");
    reveal_strlit("\" && export HTTP_PROXY=\"");
    reveal_strlit("\" && export HTTPS_PROXY=\"");
    reveal_strlit("\"");
    reveal_strlit(" && echo \"Proxy configured: HTTP 127.0.0.1:");
    reveal_strlit(" && export ALL_PROXY=\"");
    reveal_strlit("ALL_PROXY");
    reveal_strlit("http");
    lemma_local_url_free("http"@, h, 'L');
    lemma_dec_digits(h as nat);
    let u = local_url("http"@, h);
    let d = dec(h as nat);
    assert(free_of(d, 'L')) by {
        assert forall|i: int| 0 <= i < d.len() implies d[i] != 'L' by {
            assert(is_digit(d[i]));
        }
    }
    let exports = bash_exports(h);
    lemma_free_of_concat("export http_proxy=\""@, u, 'L');
    lemma_free_of_concat("export http_proxy=\""@ + u, "\" && export https_proxy=\""@, 'L');
    lemma_free_of_concat("export http_proxy=\""@ + u + "\" && export https_proxy=\""@, u, 'L');
    let e2 = "export http_proxy=\""@ + u + "\" && export https_proxy=\""@ + u;
    lemma_free_of_concat(e2, "\" && export HTTP_PROXY=\""@, 'L');
    lemma_free_of_concat(e2 + "\" && export HTTP_PROXY=\""@, u, 'L');
    let e3 = e2 + "\" && export HTTP_PROXY=\""@ + u;
    lemma_free_of_concat(e3, "\" && export HTTPS_PROXY=\""@, 'L');
    lemma_free_of_concat(e3 + "\" && export HTTPS_PROXY=\""@, u, 'L');
    let e4 = e3 + "\" && export HTTPS_PROXY=\""@ + u;
    lemma_free_of_concat(e4, "\""@, 'L');
    assert(exports == e4 + "\""@);
    let echo = " && echo \"Proxy configured: HTTP 127.0.0.1:"@ + d + "\""@;
    lemma_free_of_concat(" && echo \"Proxy configured: HTTP 127.0.0.1:"@, d, 'L');
    lemma_free_of_concat(" && echo \"Proxy configured: HTTP 127.0.0.1:"@ + d, "\""@, 'L');
    match socks {
        None => {
            assert(bash_set(h, socks) =~= exports + echo);
            lemma_free_of_concat(exports, echo, 'L');
            lemma_no_all_proxy(bash_set(h, socks));
        },
        Some(sp) => {
            let t = bash_set(h, socks);
            let k: int = exports.len() as int + 11;
            assert(t.subrange(k, k + 9) =~= "ALL_PROXY"@);
            assert(occurs_at(t, "ALL_PROXY"@, k));
        },
    }
}

/// The proxy commands depend on the shell and the first application's ports
/// alone. The shell is read as PowerShell, cmd or, for any other name,
/// bash. Without an HTTP port the set command says that none is
/// configured. The unset command depends on the shell kind alone. A bash
/// set command names `ALL_PROXY` exactly when both ports are given.
pub proof fn lemma_proxy_command_law(
    apps1: Seq<ProxyApp>,
    apps2: Seq<ProxyApp>,
    shell1: Seq<char>,
    shell2: Seq<char>,
)
    ensures
        first_ports(apps1) == first_ports(apps2) ==> proxy_command_of(apps1, shell1)
            == proxy_command_of(apps2, shell1),
        proxy_command_of(apps1, shell1).0 == shell_kind(shell1),
        first_ports(apps1).0 is None ==> proxy_command_of(apps1, shell1).1
            == "echo No proxy port configured"@,
        shell_kind(shell1) == shell_kind(shell2) ==> proxy_command_of(apps1, shell1).2
            == proxy_command_of(apps2, shell2).2,
        shell_kind(shell1) == "bash"@ ==> (contains_seq(proxy_command_of(apps1, shell1).1, "ALL_PROXY"@)
            <==> (first_ports(apps1).0 is Some && first_ports(apps1).1 is Some)),
{
    reveal_strlit("powershell");
    reveal_strlit("cmd");
    reveal_strlit("bash");
    reveal_strlit("echo No proxy port configured");
    assert("powershell"@.len() == 10 && "cmd"@.len() == 3 && "bash"@.len() == 4);
    assert("powershell"@ != "bash"@ && "cmd"@ != "bash"@ && "powershell"@ != "cmd"@);
    let (h, sk) = first_ports(apps1);
    if shell_kind(shell1) == "bash"@ {
        assert(shell1 != "powershell"@ && shell1 != "cmd"@);
        match h {
            Some(hp) => {
                lemma_bash_set_all_proxy(hp, sk);
            },
            None => {
                let none = "echo No proxy port configured"@;
                assert(free_of(none, 'L')) by {
                    assert forall|i: int| 0 <= i < none.len() implies none[i] != 'L' by {}
                }
                lemma_no_all_proxy(none);
            },
        }
    }
    if shell_kind(shell1) == shell_kind(shell2) {
        if shell1 == "powershell"@ {
            assert(shell2 == "powershell"@);
        } else if shell1 == "cmd"@ {
            assert(shell2 == "cmd"@);
        } else {
            assert(shell2 != "powershell"@ && shell2 != "cmd"@);
        }
    }
}

fn push_port(s: &mut String, p: u16)
    ensures
        final(s)@ == old(s)@ + dec(p as nat),
{
    let t = u64_to_dec(p as u64);
    push_str(s, t.as_str());
}

fn push_local_url(s: &mut String, scheme: &str, p: u16)
    ensures
        final(s)@ == old(s)@ + local_url(scheme@, p),
{
    let ghost s0 = s@;
    push_str(s, scheme);
    push_str(s, "://127.0.0.1:");
    push_port(s, p);
    assert(s@ =~= s0 + local_url(scheme@, p));
}

/// The commands that set and unset the proxy variables in a shell, for the
/// first detected application's ports.
pub fn generate_proxy_command_impl(apps: Vec<ProxyApp>, shell_type: String) -> (r: ProxyCommand)
    ensures
        (r.shell_type@, r.set_command@, r.unset_command@) == proxy_command_of(apps@, shell_type@),
{
    let http_port = if apps.len() > 0 {
        apps[0].http_port
    } else {
        None
    };
    let socks_port = if apps.len() > 0 {
        apps[0].socks_port
    } else {
        None
    };
    if str_eq(shell_type.as_str(), "powershell") {
        let set_command = match http_port {
            Some(p) => {
                let mut s = string_of("$env:HTTP_PROXY=\"");
                push_local_url(&mut s, "http", p);
                push_str(&mut s, "\"; $env:HTTPS_PROXY=\"");
                push_local_url(&mut s, "http", p);
                push_str(&mut s, "\"; echo \"Proxy configured: HTTP 127.0.0.1:");
                push_port(&mut s, p);
                push_str(&mut s, "\"");
                s
            },
            None => string_of("echo No proxy port configured"),
        };
        ProxyCommand {
            shell_type: string_of("powershell"),
            set_command,
            unset_command: string_of(
                "$env:HTTP_PROXY=$null; $env:HTTPS_PROXY=$null; echo \"Proxy unset\"",
            ),
        }
    } else if str_eq(shell_type.as_str(), "cmd") {
        let set_command = match http_port {
            Some(p) => {
                let mut s = string_of("set HTTP_PROXY=");
                push_local_url(&mut s, "http", p);
                push_str(&mut s, " && set HTTPS_PROXY=");
                push_local_url(&mut s, "http", p);
                push_str(&mut s, " && echo Proxy configured: HTTP 127.0.0.1:");
                push_port(&mut s, p);
                s
            },
            None => string_of("echo No proxy port configured"),
        };
        ProxyCommand {
            shell_type: string_of("cmd"),
            set_command,
            unset_command: string_of("set HTTP_PROXY= && set HTTPS_PROXY= && echo Proxy unset"),
        }
    } else {
        let set_command = match http_port {
            Some(h) => {
                let mut s = string_of("export http_proxy=\"");
                push_local_url(&mut s, "http", h);
                push_str(&mut s, "\" && export https_proxy=\"");
                push_local_url(&mut s, "http", h);
                push_str(&mut s, "\" && export HTTP_PROXY=\"");
                push_local_url(&mut s, "http", h);
                push_str(&mut s, "\" && export HTTPS_PROXY=\"");
                push_local_url(&mut s, "http", h);
                push_str(&mut s, "\"");
                let ghost e = s@;
                assert(e == bash_exports(h));
                match socks_port {
                    Some(sp) => {
                        push_str(&mut s, " && export ALL_PROXY=\"");
                        push_local_url(&mut s, "socks5", sp);
                        push_str(&mut s, "\"");
                    },
                    None => {},
                }
                push_str(&mut s, " && echo \"Proxy configured: HTTP 127.0.0.1:");
                push_port(&mut s, h);
                push_str(&mut s, "\"");
                s
            },
            None => string_of("echo No proxy port configured"),
        };
        ProxyCommand {
            shell_type: string_of("bash"),
            set_command,
            unset_command: string_of(
                "unset http_proxy https_proxy HTTP_PROXY HTTPS_PROXY ALL_PROXY && echo \"Proxy unset\"",
            ),
        }
    }
}

// ---------------------------------------------------------------------------
// Shell profile blocks
// ---------------------------------------------------------------------------

pub open spec fn export_lines(name: Seq<char>, h: u16, s: u16) -> Seq<char> {
    "#PROXY FLOW START\n# "@ + name + " proxy config\nexport http_proxy=\""@ + local_url("http"@, h)
        + "\"\nexport https_proxy=\""@ + local_url("http"@, h) + "\"\nexport HTTP_PROXY=\""@
        + local_url("http"@, h) + "\"\nexport HTTPS_PROXY=\""@ + local_url("http"@, h)
        + "\"\nexport ALL_PROXY=\""@ + local_url("socks5"@, s) + "\"\n#PROXY FLOW END"@
}

/// The profile blocks that set and unset the proxy variables for an
/// application (HTTP port 7890 and SOCKS port 7892 unless it has its own)
/// in `shell`'s syntax; other shells get the POSIX block and no unset block.
pub open spec fn env_lines(app: ProxyApp, shell: Seq<char>) -> (Seq<char>, Seq<char>) {
    let h = match app.http_port {
        Some(p) => p,
        None => 7890u16,
    };
    let s = match app.socks_port {
        Some(p) => p,
        None => 7892u16,
    };
    let name = app.name@;
    if shell == "zsh"@ || shell == "bash"@ {
        (
            export_lines(name, h, s),
            "#PROXY FLOW START\n# "@ + name
                + " proxy unset\nunset http_proxy https_proxy HTTP_PROXY HTTPS_PROXY ALL_PROXY\n#PROXY FLOW END"@,
        )
    } else if shell == "powershell"@ {
        (
            "#PROXY FLOW START\n# "@ + name + " proxy config\n$env:HTTP_PROXY=\""@ + local_url(
                "http"@,
                h,
            ) + "\"\n$env:HTTPS_PROXY=\""@ + local_url("http"@, h) + "\"\n#PROXY FLOW END"@,
            "#PROXY FLOW START\n# "@ + name
                + " proxy unset\n$env:HTTP_PROXY=$null\n$env:HTTPS_PROXY=$null\n#PROXY FLOW END"@,
        )
    } else {
        (export_lines(name, h, s), Seq::empty())
    }
}

fn build_export_lines(name: &str, h: u16, s: u16) -> (r: String)
    ensures
        r@ == export_lines(name@, h, s),
{
    let mut t = string_of("#PROXY FLOW START\n# ");
    push_str(&mut t, name);
    push_str(&mut t, " proxy config\nexport http_proxy=\"");
    push_local_url(&mut t, "http", h);
    push_str(&mut t, "\"\nexport https_proxy=\"");
    push_local_url(&mut t, "http", h);
    push_str(&mut t, "\"\nexport HTTP_PROXY=\"");
    push_local_url(&mut t, "http", h);
    push_str(&mut t, "\"\nexport HTTPS_PROXY=\"");
    push_local_url(&mut t, "http", h);
    push_str(&mut t, "\"\nexport ALL_PROXY=\"");
    push_local_url(&mut t, "socks5", s);
    push_str(&mut t, "\"\n#PROXY FLOW END");
    t
}

/// The profile blocks that set and unset an application's proxy variables.
pub fn get_proxy_env_lines(app: &ProxyApp, shell_type: &str) -> (r: (String, String))
    ensures
        (r.0@, r.1@) == env_lines(*app, shell_type@),
{
    let h = match app.http_port {
        Some(p) => p,
        None => 7890,
    };
    let s = match app.socks_port {
        Some(p) => p,
        None => 7892,
    };
    let name = app.name.as_str();
    if str_eq(shell_type, "zsh") || str_eq(shell_type, "bash") {
        let set_lines = build_export_lines(name, h, s);
        let mut unset_lines = string_of("#PROXY FLOW START\n# ");
        push_str(&mut unset_lines, name);
        push_str(
            &mut unset_lines,
            " proxy unset\nunset http_proxy https_proxy HTTP_PROXY HTTPS_PROXY ALL_PROXY\n#PROXY FLOW END",
        );
        (set_lines, unset_lines)
    } else if str_eq(shell_type, "powershell") {
        let mut set_lines = string_of("#PROXY FLOW START\n# ");
        push_str(&mut set_lines, name);
        push_str(&mut set_lines, " proxy config\n$env:HTTP_PROXY=\"");
        push_local_url(&mut set_lines, "http", h);
        push_str(&mut set_lines, "\"\n$env:HTTPS_PROXY=\"");
        push_local_url(&mut set_lines, "http", h);
        push_str(&mut set_lines, "\"\n#PROXY FLOW END");
        let mut unset_lines = string_of("#PROXY FLOW START\n# ");
        push_str(&mut unset_lines, name);
        push_str(
            &mut unset_lines,
            " proxy unset\n$env:HTTP_PROXY=$null\n$env:HTTPS_PROXY=$null\n#PROXY FLOW END",
        );
        (set_lines, unset_lines)
    } else {
        (build_export_lines(name, h, s), String::new())
    }
}

/// The lines of a profile that stay when its proxy blocks are removed, from
/// line `i` on: marker lines go, and so does everything between a start
/// marker and the next end marker.
pub open spec fn kept_lines(lines: Seq<Seq<char>>, i: int, in_block: bool) -> Seq<Seq<char>>
    decreases lines.len() - i,
{
    if i < 0 || i >= lines.len() {
        Seq::empty()
    } else if contains_seq(lines[i], "#PROXY FLOW START"@) {
        kept_lines(lines, i + 1, true)
    } else if contains_seq(lines[i], "#PROXY FLOW END"@) {
        kept_lines(lines, i + 1, false)
    } else if !in_block {
        seq![lines[i]] + kept_lines(lines, i + 1, false)
    } else {
        kept_lines(lines, i + 1, true)
    }
}

/// Lines each followed by a newline.
pub open spec fn with_newlines(lines: Seq<Seq<char>>) -> Seq<char>
    decreases lines.len(),
{
    if lines.len() == 0 {
        Seq::empty()
    } else {
        lines[0] + seq!['\n'] + with_newlines(lines.drop_first())
    }
}

proof fn lemma_with_newlines_push(lines: Seq<Seq<char>>, x: Seq<char>)
    ensures
        with_newlines(lines.push(x)) == with_newlines(lines) + x + seq!['\n'],
    decreases lines.len(),
{
    if lines.len() == 0 {
        reveal_with_fuel(with_newlines, 2);
        assert(lines.push(x) =~= seq![x]);
        assert(seq![x].drop_first() =~= Seq::<Seq<char>>::empty());
        assert(with_newlines(lines.push(x)) =~= x + seq!['\n']);
    } else {
        assert(lines.push(x).drop_first() =~= lines.drop_first().push(x));
        lemma_with_newlines_push(lines.drop_first(), x);
        assert(with_newlines(lines.push(x)) =~= with_newlines(lines) + x + seq!['\n']);
    }
}

/// A profile with its proxy blocks removed.
pub open spec fn stripped(content: Seq<char>) -> Seq<char> {
    with_newlines(kept_lines(lines_of(content), 0, false))
}

/// Removes the proxy blocks from a shell profile; every kept line ends
/// with a newline.
pub fn strip_proxy_blocks(content: &str) -> (r: String)
    ensures
        r@ == stripped(content@),
{
    let chars = str_to_chars(content);
    let lines = chars_lines(chars.as_slice());
    let ghost ls = char_seqs(lines@);
    let start = str_to_chars("#PROXY FLOW START");
    let end = str_to_chars("#PROXY FLOW END");
    let mut out = String::new();
    let mut in_block = false;
    let ghost mut done: Seq<Seq<char>> = Seq::empty();
    let mut i: usize = 0;
    while i < lines.len()
        invariant
            i <= lines@.len(),
            ls == char_seqs(lines@),
            ls == lines_of(content@),
            start@ == "#PROXY FLOW START"@,
            end@ == "#PROXY FLOW END"@,
            kept_lines(ls, 0, false) == done + kept_lines(ls, i as int, in_block),
            out@ == with_newlines(done),
        decreases lines@.len() - i,
    {
        assert(ls[i as int] == lines@[i as int]@);
        let line = lines[i].as_slice();
        if chars_contains(line, start.as_slice()) {
            in_block = true;
        } else if chars_contains(line, end.as_slice()) {
            in_block = false;
        } else if !in_block {
            let ghost old_out = out@;
            crate::text::push_chars(&mut out, line);
            crate::text::push_char(&mut out, '\n');
            proof {
                lemma_with_newlines_push(done, line@);
                assert(done + (seq![line@] + kept_lines(ls, i + 1, false)) =~= done.push(line@)
                    + kept_lines(ls, i + 1, false));
                done = done.push(line@);
                assert(out@ =~= with_newlines(done));
            }
        }
        i = i + 1;
    }
    assert(done + Seq::<Seq<char>>::empty() =~= done);
    out
}

/// A line that ends with a carriage return.
pub open spec fn ends_cr(l: Seq<char>) -> bool {
    l.len() > 0 && l.last() == '\r'
}

/// A line holding neither proxy marker.
pub open spec fn unmarked(l: Seq<char>) -> bool {
    !contains_seq(l, "#PROXY FLOW START"@) && !contains_seq(l, "#PROXY FLOW END"@)
}

proof fn lemma_lines_have_no_newline(s: Seq<char>)
    ensures
        forall|k: int, j: int|
            0 <= k < lines_of(s).len() && 0 <= j < lines_of(s)[k].len() ==> lines_of(s)[k][j] != '\n',
    decreases s.len(),
{
    if s.len() > 0 {
        lemma_index_of_char(s, '\n');
        match index_of_char(s, '\n') {
            Some(i) => {
                lemma_lines_have_no_newline(s.skip(i + 1));
                let first = strip_cr(s.take(i));
                assert forall|j: int| 0 <= j < first.len() implies first[j] != '\n' by {
                    assert(first[j] == s[j]);
                }
                assert forall|k: int, j: int|
                    0 <= k < lines_of(s).len() && 0 <= j < lines_of(s)[k].len() implies lines_of(
                    s,
                )[k][j] != '\n' by {
                    if k > 0 {
                        assert(lines_of(s)[k] == lines_of(s.skip(i + 1))[k - 1]);
                    }
                }
            },
            None => {},
        }
    }
}

/// Lines each followed by a newline end with a newline, when there are any.
proof fn lemma_with_newlines_ends(ls: Seq<Seq<char>>)
    requires
        ls.len() > 0,
    ensures
        with_newlines(ls).len() > 0,
        with_newlines(ls).last() == '\n',
{
    lemma_with_newlines_push(ls.drop_last(), ls.last());
    assert(ls.drop_last().push(ls.last()) =~= ls);
}

/// Text cut just after a newline has the lines of its two parts.
proof fn lemma_lines_of_split(a: Seq<char>, b: Seq<char>)
    requires
        a.len() > 0,
        a.last() == '\n',
    ensures
        lines_of(a + b) == lines_of(a) + lines_of(b),
    decreases a.len(),
{
    let s = a + b;
    lemma_index_of_char(s, '\n');
    lemma_index_of_char(a, '\n');
    assert(s[a.len() - 1] == '\n');
    match index_of_char(a, '\n') {
        None => {
            assert(a[a.len() - 1] == '\n');
        },
        Some(i) => {
            assert(s[i] == a[i]);
            match index_of_char(s, '\n') {
                None => {
                    assert(s[i] == '\n');
                },
                Some(j) => {
                    if j < i {
                        assert(s[j] == a[j]);
                    }
                    assert(j == i);
                },
            }
            assert(s.take(i) =~= a.take(i));
            assert(s.skip(i + 1) =~= a.skip(i + 1) + b);
            assert(lines_of(a) == seq![strip_cr(a.take(i))] + lines_of(a.skip(i + 1)));
            assert(lines_of(s) == seq![strip_cr(s.take(i))] + lines_of(s.skip(i + 1)));
            if i + 1 == a.len() {
                assert(a.skip(i + 1) =~= Seq::<char>::empty());
                assert(a.skip(i + 1) + b =~= b);
                assert(lines_of(a.skip(i + 1)) =~= Seq::<Seq<char>>::empty());
            } else {
                let a2 = a.skip(i + 1);
                assert(a2.last() == a.last());
                lemma_lines_of_split(a2, b);
            }
            assert(lines_of(s) =~= lines_of(a) + lines_of(b));
        },
    }
}

proof fn lemma_lines_of_with_newlines(ls: Seq<Seq<char>>)
    requires
        forall|k: int, j: int| 0 <= k < ls.len() && 0 <= j < ls[k].len() ==> ls[k][j] != '\n',
        forall|k: int| 0 <= k < ls.len() ==> !ends_cr(#[trigger] ls[k]),
    ensures
        lines_of(with_newlines(ls)) == ls,
    decreases ls.len(),
{
    if ls.len() > 0 {
        let first = ls[0];
        let rest = with_newlines(ls.drop_first());
        let s = with_newlines(ls);
        assert(s == first + seq!['\n'] + rest);
        assert forall|k: int| 0 <= k < ls.drop_first().len() implies !ends_cr(
            #[trigger] ls.drop_first()[k],
        ) by {
            assert(ls.drop_first()[k] == ls[k + 1]);
        }
        lemma_lines_of_with_newlines(ls.drop_first());
        lemma_index_of_char(s, '\n');
        assert(s[first.len() as int] == '\n');
        match index_of_char(s, '\n') {
            Some(i) => {
                if i < first.len() {
                    assert(s[i] == first[i]);
                    assert(ls[0][i] != '\n');
                }
                assert(i == first.len());
                assert(s.take(i) =~= first);
                assert(s.skip(i + 1) =~= rest);
                assert(!ends_cr(ls[0]));
                assert(strip_cr(first) == first);
                assert(lines_of(s) =~= seq![first] + ls.drop_first());
                assert(seq![first] + ls.drop_first() =~= ls);
            },
            None => {},
        }
    } else {
        assert(with_newlines(ls) =~= Seq::<char>::empty());
    }
}

proof fn lemma_kept_lines_unmarked(ls: Seq<Seq<char>>, i: int, in_block: bool)
    requires
        0 <= i,
    ensures
        forall|k: int| 0 <= k < kept_lines(ls, i, in_block).len() ==> unmarked(
            #[trigger] kept_lines(ls, i, in_block)[k],
        ),
        forall|k: int|
            0 <= k < kept_lines(ls, i, in_block).len() ==> exists|m: int|
                i <= m < ls.len() && #[trigger] kept_lines(ls, i, in_block)[k] == ls[m],
    decreases ls.len() - i,
{
    if i < ls.len() {
        lemma_kept_lines_unmarked(ls, i + 1, true);
        lemma_kept_lines_unmarked(ls, i + 1, false);
        let here = kept_lines(ls, i, in_block);
        if !contains_seq(ls[i], "#PROXY FLOW START"@) && !contains_seq(ls[i], "#PROXY FLOW END"@)
            && !in_block {
            let tail = kept_lines(ls, i + 1, false);
            assert(here == seq![ls[i]] + tail);
            assert forall|k: int| 0 <= k < here.len() implies unmarked(#[trigger] here[k]) by {
                if k > 0 {
                    assert(here[k] == tail[k - 1]);
                }
            }
            assert forall|k: int| 0 <= k < here.len() implies exists|m: int|
                i <= m < ls.len() && #[trigger] here[k] == ls[m] by {
                if k > 0 {
                    assert(here[k] == tail[k - 1]);
                    let m = choose|m: int| i + 1 <= m < ls.len() && tail[k - 1] == ls[m];
                    assert(here[k] == ls[m]);
                } else {
                    assert(here[0] == ls[i]);
                }
            }
        } else {
            let next = if contains_seq(ls[i], "#PROXY FLOW START"@) {
                true
            } else if contains_seq(ls[i], "#PROXY FLOW END"@) {
                false
            } else {
                in_block
            };
            let tail = kept_lines(ls, i + 1, next);
            assert(here == tail);
            assert forall|k: int| 0 <= k < here.len() implies exists|m: int|
                i <= m < ls.len() && #[trigger] here[k] == ls[m] by {
                let m = choose|m: int| i + 1 <= m < ls.len() && tail[k] == ls[m];
                assert(here[k] == ls[m]);
            }
        }
    }
}

proof fn lemma_kept_lines_of_unmarked(ls: Seq<Seq<char>>, i: int)
    requires
        0 <= i <= ls.len(),
        forall|k: int| 0 <= k < ls.len() ==> unmarked(#[trigger] ls[k]),
    ensures
        kept_lines(ls, i, false) == ls.skip(i),
    decreases ls.len() - i,
{
    if i < ls.len() {
        lemma_kept_lines_of_unmarked(ls, i + 1);
        assert(unmarked(ls[i]));
        assert(seq![ls[i]] + ls.skip(i + 1) =~= ls.skip(i));
    } else {
        assert(ls.skip(i) =~= Seq::<Seq<char>>::empty());
    }
}

/// Removing the proxy blocks from a profile that has none left changes
/// nothing: stripping twice is stripping once, provided no kept line ends
/// with a carriage return (which the line reader would take off).
pub proof fn lemma_strip_idempotent(content: Seq<char>)
    requires
        forall|k: int|
            0 <= k < kept_lines(lines_of(content), 0, false).len() ==> !ends_cr(
                #[trigger] kept_lines(lines_of(content), 0, false)[k],
            ),
    ensures
        stripped(stripped(content)) == stripped(content),
{
    let ls = lines_of(content);
    let kept = kept_lines(ls, 0, false);
    lemma_lines_have_no_newline(content);
    lemma_kept_lines_unmarked(ls, 0, false);
    assert forall|k: int, j: int| 0 <= k < kept.len() && 0 <= j < kept[k].len() implies kept[k][j]
        != '\n' by {
        let m = choose|m: int| 0 <= m < ls.len() && #[trigger] kept[k] == ls[m];
        assert(kept[k] == ls[m]);
    }
    lemma_lines_of_with_newlines(kept);
    lemma_kept_lines_of_unmarked(kept, 0);
    assert(kept.skip(0) =~= kept);
}

proof fn lemma_with_newlines_concat(a: Seq<Seq<char>>, b: Seq<Seq<char>>)
    ensures
        with_newlines(a + b) == with_newlines(a) + with_newlines(b),
    decreases a.len(),
{
    if a.len() == 0 {
        assert(a + b =~= b);
        assert(with_newlines(a) =~= Seq::<char>::empty());
        assert(with_newlines(a) + with_newlines(b) =~= with_newlines(b));
    } else {
        lemma_with_newlines_concat(a.drop_first(), b);
        assert((a + b).drop_first() =~= a.drop_first() + b);
        assert((a + b)[0] == a[0]);
        assert(with_newlines(a + b) =~= with_newlines(a) + with_newlines(b));
    }
}

proof fn lemma_kept_lines_shift(a: Seq<Seq<char>>, b: Seq<Seq<char>>, j: int, st: bool)
    requires
        0 <= j,
    ensures
        kept_lines(a + b, a.len() + j, st) == kept_lines(b, j, st),
    decreases b.len() - j,
{
    if j < b.len() {
        assert((a + b)[a.len() + j] == b[j]);
        lemma_kept_lines_shift(a, b, j + 1, true);
        lemma_kept_lines_shift(a, b, j + 1, false);
    }
}

proof fn lemma_kept_lines_prefix(a: Seq<Seq<char>>, b: Seq<Seq<char>>, i: int)
    requires
        0 <= i <= a.len(),
        forall|k: int| 0 <= k < a.len() ==> unmarked(#[trigger] a[k]),
    ensures
        kept_lines(a + b, i, false) == a.skip(i) + kept_lines(b, 0, false),
    decreases a.len() - i,
{
    if i < a.len() {
        lemma_kept_lines_prefix(a, b, i + 1);
        assert((a + b)[i] == a[i]);
        assert(unmarked(a[i]));
        assert(seq![a[i]] + (a.skip(i + 1) + kept_lines(b, 0, false)) =~= a.skip(i) + kept_lines(
            b,
            0,
            false,
        ));
    } else {
        lemma_kept_lines_shift(a, b, 0, false);
        assert(a.skip(i) + kept_lines(b, 0, false) =~= kept_lines(b, 0, false));
    }
}

/// No character of `s` is `#`.
pub open spec fn no_hash(s: Seq<char>) -> bool {
    forall|i: int| 0 <= i < s.len() ==> s[i] != '#'
}

proof fn lemma_no_hash_unmarked(s: Seq<char>)
    requires
        no_hash(s),
    ensures
        unmarked(s),
{
    reveal_strlit("#PROXY FLOW START");
    reveal_strlit("#PROXY FLOW END");
    if contains_seq(s, "#PROXY FLOW START"@) {
        let i = choose|i: int| occurs_at(s, "#PROXY FLOW START"@, i);
        assert(s.subrange(i, i + 17)[0] == s[i]);
    }
    if contains_seq(s, "#PROXY FLOW END"@) {
        let i = choose|i: int| occurs_at(s, "#PROXY FLOW END"@, i);
        assert(s.subrange(i, i + 15)[0] == s[i]);
    }
}

proof fn lemma_local_url_no_hash(scheme: Seq<char>, p: u16)
    requires
        no_hash(scheme),
    ensures
        no_hash(local_url(scheme, p)),
{
    reveal_strlit("://127.0.0.1:");
    lemma_dec_digits(p as nat);
    let d = dec(p as nat);
    let u = local_url(scheme, p);
    assert forall|i: int| 0 <= i < u.len() implies u[i] != '#' by {
        if i >= scheme.len() + 13 {
            assert(u[i] == d[i - scheme.len() - 13]);
            assert(is_digit(d[i - scheme.len() - 13]));
        }
    }
}

/// The comment line that names the application in its proxy block.
pub open spec fn block_comment(name: Seq<char>) -> Seq<char> {
    "# "@ + name + " proxy config"@
}

pub open spec fn export_block(name: Seq<char>, h: u16, s: u16) -> Seq<Seq<char>> {
    seq![
        "#PROXY FLOW START"@,
        block_comment(name),
        "export http_proxy=\""@ + local_url("http"@, h) + "\""@,
        "export https_proxy=\""@ + local_url("http"@, h) + "\""@,
        "export HTTP_PROXY=\""@ + local_url("http"@, h) + "\""@,
        "export HTTPS_PROXY=\""@ + local_url("http"@, h) + "\""@,
        "export ALL_PROXY=\""@ + local_url("socks5"@, s) + "\""@,
        "#PROXY FLOW END"@,
    ]
}

pub open spec fn powershell_block(name: Seq<char>, h: u16) -> Seq<Seq<char>> {
    seq![
        "#PROXY FLOW START"@,
        block_comment(name),
        "$env:HTTP_PROXY=\""@ + local_url("http"@, h) + "\""@,
        "$env:HTTPS_PROXY=\""@ + local_url("http"@, h) + "\""@,
        "#PROXY FLOW END"@,
    ]
}

/// The lines of the proxy block written for `app` in `shell`'s syntax.
pub open spec fn block_lines(app: ProxyApp, shell: Seq<char>) -> Seq<Seq<char>> {
    let h = match app.http_port {
        Some(p) => p,
        None => 7890u16,
    };
    let s = match app.socks_port {
        Some(p) => p,
        None => 7892u16,
    };
    if shell == "zsh"@ || shell == "bash"@ {
        export_block(app.name@, h, s)
    } else if shell == "powershell"@ {
        powershell_block(app.name@, h)
    } else {
        export_block(app.name@, h, s)
    }
}

#[verifier::spinoff_prover]
#[verifier::rlimit(40)]
proof fn lemma_export_block_text(name: Seq<char>, h: u16, s: u16)
    ensures
        export_lines(name, h, s) + "\n"@ == with_newlines(export_block(name, h, s)),
{
    reveal_strlit("#PROXY FLOW START\n# ");
    reveal_strlit(" proxy config\nexport http_proxy=\"");
    reveal_strlit("\"\nexport https_proxy=\"");
    reveal_strlit("\"\nexport HTTP_PROXY=\"");
    reveal_strlit("\"\nexport HTTPS_PROXY=\"");
    reveal_strlit("\"\nexport ALL_PROXY=\"");
    reveal_strlit("\"\n#PROXY FLOW END");
    reveal_strlit("#PROXY FLOW START");
    reveal_strlit("# ");
    reveal_strlit(" proxy config");
    reveal_strlit("export http_proxy=\"");
    reveal_strlit("export https_proxy=\"");
    reveal_strlit("export HTTP_PROXY=\"");
    reveal_strlit("export HTTPS_PROXY=\"");
    reveal_strlit("export ALL_PROXY=\"");
    reveal_strlit("\"");
    reveal_strlit("#PROXY FLOW END");
    reveal_strlit("\n");
    reveal_with_fuel(with_newlines, 9);
    let b = export_block(name, h, s);
    assert(b.drop_first().drop_first().drop_first().drop_first().drop_first().drop_first().drop_first().drop_first()
        =~= Seq::<Seq<char>>::empty());
    assert(export_lines(name, h, s) + "\n"@ =~= with_newlines(b));
}

proof fn lemma_powershell_block_text(name: Seq<char>, h: u16)
    ensures
        ("#PROXY FLOW START\n# "@ + name + " proxy config\n$env:HTTP_PROXY=\""@ + local_url(
            "http"@,
            h,
        ) + "\"\n$env:HTTPS_PROXY=\""@ + local_url("http"@, h) + "\"\n#PROXY FLOW END"@) + "\n"@
            == with_newlines(powershell_block(name, h)),
{
    reveal_strlit("#PROXY FLOW START\n# ");
    reveal_strlit(" proxy config\n$env:HTTP_PROXY=\"");
    reveal_strlit("\"\n$env:HTTPS_PROXY=\"");
    reveal_strlit("\"\n#PROXY FLOW END");
    reveal_strlit("#PROXY FLOW START");
    reveal_strlit("# ");
    reveal_strlit(" proxy config");
    reveal_strlit("$env:HTTP_PROXY=\"");
    reveal_strlit("$env:HTTPS_PROXY=\"");
    reveal_strlit("\"");
    reveal_strlit("#PROXY FLOW END");
    reveal_strlit("\n");
    reveal_with_fuel(with_newlines, 6);
    let b = powershell_block(name, h);
    assert(b.drop_first().drop_first().drop_first().drop_first().drop_first() =~= Seq::<Seq<char>>::empty());
    assert(("#PROXY FLOW START\n# "@ + name + " proxy config\n$env:HTTP_PROXY=\""@ + local_url(
        "http"@,
        h,
    ) + "\"\n$env:HTTPS_PROXY=\""@ + local_url("http"@, h) + "\"\n#PROXY FLOW END"@) + "\n"@
        =~= with_newlines(b));
}

/// No character of `s` is `c`.
pub open spec fn free_of(s: Seq<char>, c: char) -> bool {
    forall|i: int| 0 <= i < s.len() ==> s[i] != c
}

proof fn lemma_local_url_free(scheme: Seq<char>, p: u16, c: char)
    requires
        free_of(scheme, c),
        !is_digit(c),
        c != ':' && c != '/' && c != '.',
    ensures
        free_of(local_url(scheme, p), c),
{
    reveal_strlit("://127.0.0.1:");
    lemma_dec_digits(p as nat);
    let d = dec(p as nat);
    let u = local_url(scheme, p);
    assert forall|i: int| 0 <= i < u.len() implies u[i] != c by {
        if i >= scheme.len() + 13 {
            assert(u[i] == d[i - scheme.len() - 13]);
            assert(is_digit(d[i - scheme.len() - 13]));
        } else if i >= scheme.len() {
            assert(u[i] == "://127.0.0.1:"@[i - scheme.len()]);
        }
    }
}

/// A line of the block that sets a variable to a local URL: a literal
/// prefix, the URL, a closing quote.
proof fn lemma_setting_line_clean(prefix: Seq<char>, scheme: Seq<char>, p: u16)
    requires
        free_of(prefix, '#'),
        free_of(prefix, '\n'),
        free_of(scheme, '#'),
        free_of(scheme, '\n'),
    ensures
        ({
            let l = prefix + local_url(scheme, p) + "\""@;
            &&& free_of(l, '#')
            &&& free_of(l, '\n')
            &&& !ends_cr(l)
            &&& unmarked(l)
        }),
{
    reveal_strlit("\"");
    lemma_local_url_free(scheme, p, '#');
    lemma_local_url_free(scheme, p, '\n');
    let u = local_url(scheme, p);
    let l = prefix + u + "\""@;
    assert forall|i: int| 0 <= i < l.len() implies l[i] != '#' && l[i] != '\n' by {
        if i < prefix.len() {
            assert(l[i] == prefix[i]);
        } else if i < prefix.len() + u.len() {
            assert(l[i] == u[i - prefix.len()]);
        }
    }
    assert(l.last() == '"');
    lemma_no_hash_unmarked(l);
}

proof fn lemma_literals_clean()
    ensures
        free_of("export http_proxy=\""@, '#') && free_of("export http_proxy=\""@, '\n'),
        free_of("export https_proxy=\""@, '#') && free_of("export https_proxy=\""@, '\n'),
        free_of("export HTTP_PROXY=\""@, '#') && free_of("export HTTP_PROXY=\""@, '\n'),
        free_of("export HTTPS_PROXY=\""@, '#') && free_of("export HTTPS_PROXY=\""@, '\n'),
        free_of("export ALL_PROXY=\""@, '#') && free_of("export ALL_PROXY=\""@, '\n'),
        free_of("$env:HTTP_PROXY=\""@, '#') && free_of("$env:HTTP_PROXY=\""@, '\n'),
        free_of("$env:HTTPS_PROXY=\""@, '#') && free_of("$env:HTTPS_PROXY=\""@, '\n'),
        free_of("http"@, '#') && free_of("http"@, '\n'),
        free_of("socks5"@, '#') && free_of("socks5"@, '\n'),
{
    reveal_strlit("export http_proxy=\"");
    reveal_strlit("export https_proxy=\"");
    reveal_strlit("export HTTP_PROXY=\"");
    reveal_strlit("export HTTPS_PROXY=\"");
    reveal_strlit("export ALL_PROXY=\"");
    reveal_strlit("$env:HTTP_PROXY=\"");
    reveal_strlit("$env:HTTPS_PROXY=\"");
    reveal_strlit("http");
    reveal_strlit("socks5");
}

#[verifier::spinoff_prover]
proof fn lemma_markers_read()
    ensures
        contains_seq("#PROXY FLOW START"@, "#PROXY FLOW START"@),
        !contains_seq("#PROXY FLOW END"@, "#PROXY FLOW START"@),
        contains_seq("#PROXY FLOW END"@, "#PROXY FLOW END"@),
        free_of("#PROXY FLOW START"@, '\n') && !ends_cr("#PROXY FLOW START"@),
        free_of("#PROXY FLOW END"@, '\n') && !ends_cr("#PROXY FLOW END"@),
{
    reveal_strlit("#PROXY FLOW START");
    reveal_strlit("#PROXY FLOW END");
    let st = "#PROXY FLOW START"@;
    let en = "#PROXY FLOW END"@;
    assert(st.subrange(0, st.len() as int) =~= st);
    assert(en.subrange(0, en.len() as int) =~= en);
    assert(occurs_at(st, st, 0));
    assert(occurs_at(en, en, 0));
}

proof fn lemma_comment_clean(name: Seq<char>)
    requires
        free_of(name, '\n'),
    ensures
        free_of(block_comment(name), '\n'),
        !ends_cr(block_comment(name)),
{
    reveal_strlit("# ");
    reveal_strlit(" proxy config");
    let l = block_comment(name);
    assert forall|i: int| 0 <= i < l.len() implies l[i] != '\n' by {
        if 2 <= i < 2 + name.len() {
            assert(l[i] == name[i - 2]);
        } else if i < 2 {
            assert(l[i] == "# "@[i]);
        } else {
            assert(l[i] == " proxy config"@[i - 2 - name.len()]);
        }
    }
    assert(l.last() == 'g');
}

proof fn lemma_block_text(app: ProxyApp, shell: Seq<char>)
    ensures
        env_lines(app, shell).0 + "\n"@ == with_newlines(block_lines(app, shell)),
{
    let h = match app.http_port {
        Some(p) => p,
        None => 7890u16,
    };
    let s = match app.socks_port {
        Some(p) => p,
        None => 7892u16,
    };
    lemma_export_block_text(app.name@, h, s);
    lemma_powershell_block_text(app.name@, h);
}

proof fn lemma_block_lines_clean(app: ProxyApp, shell: Seq<char>)
    requires
        free_of(app.name@, '\n'),
    ensures
        forall|k: int|
            0 <= k < block_lines(app, shell).len() ==> free_of(#[trigger] block_lines(app, shell)[k], '\n')
                && !ends_cr(block_lines(app, shell)[k]),
{
    let h = match app.http_port {
        Some(p) => p,
        None => 7890u16,
    };
    let s = match app.socks_port {
        Some(p) => p,
        None => 7892u16,
    };
    lemma_literals_clean();
    lemma_markers_read();
    lemma_comment_clean(app.name@);
    lemma_setting_line_clean("export http_proxy=\""@, "http"@, h);
    lemma_setting_line_clean("export https_proxy=\""@, "http"@, h);
    lemma_setting_line_clean("export HTTP_PROXY=\""@, "http"@, h);
    lemma_setting_line_clean("export HTTPS_PROXY=\""@, "http"@, h);
    lemma_setting_line_clean("export ALL_PROXY=\""@, "socks5"@, s);
    lemma_setting_line_clean("$env:HTTP_PROXY=\""@, "http"@, h);
    lemma_setting_line_clean("$env:HTTPS_PROXY=\""@, "http"@, h);
}

proof fn lemma_kept_through_unmarked(b: Seq<Seq<char>>, i: int, stop: int)
    requires
        0 <= i <= stop <= b.len(),
        forall|k: int| i <= k < stop ==> unmarked(#[trigger] b[k]),
    ensures
        kept_lines(b, i, true) == kept_lines(b, stop, true),
    decreases stop - i,
{
    if i < stop {
        assert(unmarked(b[i]));
        lemma_kept_through_unmarked(b, i + 1, stop);
    }
}

proof fn lemma_block_removed(app: ProxyApp, shell: Seq<char>)
    requires
        !contains_seq(block_comment(app.name@), "#PROXY FLOW END"@),
    ensures
        kept_lines(block_lines(app, shell), 0, false) == Seq::<Seq<char>>::empty(),
{
    let h = match app.http_port {
        Some(p) => p,
        None => 7890u16,
    };
    let s = match app.socks_port {
        Some(p) => p,
        None => 7892u16,
    };
    lemma_literals_clean();
    lemma_markers_read();
    lemma_setting_line_clean("export http_proxy=\""@, "http"@, h);
    lemma_setting_line_clean("export https_proxy=\""@, "http"@, h);
    lemma_setting_line_clean("export HTTP_PROXY=\""@, "http"@, h);
    lemma_setting_line_clean("export HTTPS_PROXY=\""@, "http"@, h);
    lemma_setting_line_clean("export ALL_PROXY=\""@, "socks5"@, s);
    lemma_setting_line_clean("$env:HTTP_PROXY=\""@, "http"@, h);
    lemma_setting_line_clean("$env:HTTPS_PROXY=\""@, "http"@, h);
    let b = block_lines(app, shell);
    let n = b.len() as int;
    // The start marker opens the block, the comment and the settings stay
    // inside it, the end marker closes it.
    assert(kept_lines(b, 0, false) == kept_lines(b, 1, true));
    assert(kept_lines(b, 1, true) == kept_lines(b, 2, true));
    assert forall|i: int| 2 <= i < n - 1 implies unmarked(#[trigger] b[i]) by {}
    lemma_kept_through_unmarked(b, 2, n - 1);
    assert(kept_lines(b, n - 1, true) == kept_lines(b, n, false));
}

/// A proxy block whose application name holds no newline and whose comment
/// line holds no end marker is removed whole: its text, with the newline
/// written after it, strips to nothing.
pub proof fn lemma_block_strips_away(app: ProxyApp, shell: Seq<char>)
    requires
        free_of(app.name@, '\n'),
        !contains_seq(block_comment(app.name@), "#PROXY FLOW END"@),
    ensures
        stripped(env_lines(app, shell).0 + "\n"@) == Seq::<char>::empty(),
{
    let b = block_lines(app, shell);
    lemma_block_text(app, shell);
    lemma_block_lines_clean(app, shell);
    lemma_lines_of_with_newlines(b);
    lemma_block_removed(app, shell);
    assert(with_newlines(Seq::<Seq<char>>::empty()) =~= Seq::<char>::empty());
}

/// Removing the proxy blocks from a profile that just had the block for
/// `app` written gives the profile as it was with its old blocks removed,
/// plus the empty line written before the block. It holds when no kept
/// line of the old profile ends with a carriage return and the new block,
/// read on its own, strips to nothing (see `lemma_block_strips_away`).
pub proof fn lemma_remove_undoes_write(content: Seq<char>, app: ProxyApp, shell: Seq<char>)
    requires
        forall|k: int|
            0 <= k < kept_lines(lines_of(content), 0, false).len() ==> !ends_cr(
                #[trigger] kept_lines(lines_of(content), 0, false)[k],
            ),
        stripped(env_lines(app, shell).0 + "\n"@) == Seq::<char>::empty(),
    ensures
        stripped(written_profile(content, app, shell)) == stripped(content) + "\n"@,
{
    let ls = lines_of(content);
    let kept = kept_lines(ls, 0, false);
    let b = block_lines(app, shell);
    let front = kept.push(Seq::<char>::empty());
    lemma_lines_have_no_newline(content);
    lemma_kept_lines_unmarked(ls, 0, false);
    assert forall|k: int, j: int| 0 <= k < kept.len() && 0 <= j < kept[k].len() implies kept[k][j]
        != '\n' by {
        let m = choose|m: int| 0 <= m < ls.len() && #[trigger] kept[k] == ls[m];
        assert(kept[k] == ls[m]);
    }
    // The written profile is the kept lines and an empty line, each
    // followed by a newline, then the block's text.
    lemma_block_text(app, shell);
    lemma_with_newlines_concat(kept, seq![Seq::<char>::empty()]);
    reveal_with_fuel(with_newlines, 2);
    assert(with_newlines(seq![Seq::<char>::empty()]) =~= "\n"@) by {
        reveal_strlit("\n");
        assert(seq![Seq::<char>::empty()].drop_first() =~= Seq::<Seq<char>>::empty());
    }
    assert(kept + seq![Seq::<char>::empty()] =~= front);
    let block_text = env_lines(app, shell).0 + "\n"@;
    assert(written_profile(content, app, shell) =~= with_newlines(front) + block_text);
    // Reading it back gives those lines, then the block's lines.
    assert forall|k: int, j: int| 0 <= k < front.len() && 0 <= j < front[k].len() implies front[k][j]
        != '\n' by {
        assert(front[k] == kept[k]);
    }
    assert forall|k: int| 0 <= k < front.len() implies !ends_cr(#[trigger] front[k]) by {
        if k < kept.len() {
            assert(front[k] == kept[k]);
        }
    }
    lemma_lines_of_with_newlines(front);
    lemma_with_newlines_ends(front);
    lemma_lines_of_split(with_newlines(front), block_text);
    let tail = lines_of(block_text);
    // The kept lines and the empty line stay; the block leaves nothing.
    assert forall|k: int| 0 <= k < front.len() implies unmarked(#[trigger] front[k]) by {
        if k < kept.len() {
            assert(front[k] == kept[k]);
        } else {
            assert(front[k] == Seq::<char>::empty());
            assert(!contains_seq(Seq::<char>::empty(), "#PROXY FLOW START"@)) by {
                reveal_strlit("#PROXY FLOW START");
            }
            assert(!contains_seq(Seq::<char>::empty(), "#PROXY FLOW END"@)) by {
                reveal_strlit("#PROXY FLOW END");
            }
        }
    }
    lemma_kept_lines_prefix(front, tail, 0);
    if kept_lines(tail, 0, false).len() > 0 {
        lemma_with_newlines_ends(kept_lines(tail, 0, false));
    }
    assert(kept_lines(tail, 0, false) =~= Seq::<Seq<char>>::empty());
    assert(front.skip(0) + Seq::<Seq<char>>::empty() =~= front);
    assert(stripped(written_profile(content, app, shell)) == with_newlines(front));
}

/// The profile after the proxy block for `app` is written: the old
/// profile without proxy blocks, an empty line, the new block and a
/// newline.
pub open spec fn written_profile(content: Seq<char>, app: ProxyApp, shell: Seq<char>) -> Seq<char> {
    stripped(content) + "\n"@ + env_lines(app, shell).0 + "\n"@
}

/// The new content of a shell profile that gets the proxy block for `app`.
pub fn proxy_profile_content(content: &str, app: &ProxyApp, shell_type: &str) -> (r: String)
    ensures
        r@ == written_profile(content@, *app, shell_type@),
{
    let mut out = strip_proxy_blocks(content);
    let (set_lines, _) = get_proxy_env_lines(app, shell_type);
    push_str(&mut out, "\n");
    push_str(&mut out, set_lines.as_str());
    push_str(&mut out, "\n");
    out
}

/// The profile file a shell reads, under the home directory: `.zshrc`, or
/// for bash `.bashrc` when it exists and `.bash_profile` otherwise.
pub fn shell_config_file(shell_type: &str, bashrc_exists: bool) -> (r: &'static str)
    ensures
        r@ == if shell_type@ == "bash"@ {
            if bashrc_exists {
                ".bashrc"@
            } else {
                ".bash_profile"@
            }
        } else {
            ".zshrc"@
        },
{
    if str_eq(shell_type, "bash") {
        if bashrc_exists {
            ".bashrc"
        } else {
            ".bash_profile"
        }
    } else {
        ".zshrc"
    }
}

// ---------------------------------------------------------------------------
// System proxy settings
// ---------------------------------------------------------------------------

#[derive(Clone, Default)]
pub struct NetworkProxySettings {
    pub web_proxy_enabled: bool,
    pub web_proxy_server: String,
    pub web_proxy_port: String,
    pub secure_web_proxy_enabled: bool,
    pub secure_web_proxy_server: String,
    pub secure_web_proxy_port: String,
    pub socks_proxy_enabled: bool,
    pub socks_proxy_server: String,
    pub socks_proxy_port: String,
}

/// One proxy's state: enabled, server, port.
pub type ProxyFields = (bool, Seq<char>, Seq<char>);

pub open spec fn settings_view(s: NetworkProxySettings) -> (ProxyFields, ProxyFields, ProxyFields) {
    (
        (s.web_proxy_enabled, s.web_proxy_server@, s.web_proxy_port@),
        (s.secure_web_proxy_enabled, s.secure_web_proxy_server@, s.secure_web_proxy_port@),
        (s.socks_proxy_enabled, s.socks_proxy_server@, s.socks_proxy_port@),
    )
}

impl NetworkProxySettings {
    /// A field-by-field copy.
    pub fn duplicate(&self) -> (r: NetworkProxySettings)
        ensures
            settings_view(r) == settings_view(*self),
    {
        NetworkProxySettings {
            web_proxy_enabled: self.web_proxy_enabled,
            web_proxy_server: self.web_proxy_server.clone(),
            web_proxy_port: self.web_proxy_port.clone(),
            secure_web_proxy_enabled: self.secure_web_proxy_enabled,
            secure_web_proxy_server: self.secure_web_proxy_server.clone(),
            secure_web_proxy_port: self.secure_web_proxy_port.clone(),
            socks_proxy_enabled: self.socks_proxy_enabled,
            socks_proxy_server: self.socks_proxy_server.clone(),
            socks_proxy_port: self.socks_proxy_port.clone(),
        }
    }
}

pub open spec fn saved_view(v: Seq<(String, NetworkProxySettings)>) -> Seq<
    (Seq<char>, (ProxyFields, ProxyFields, ProxyFields)),
> {
    v.map_values(|e: (String, NetworkProxySettings)| (e.0@, settings_view(e.1)))
}

/// Whether the system proxy is on, and the settings it replaced.
pub struct ProxyStatus {
    enabled: bool,
    original_settings: Vec<(String, NetworkProxySettings)>,
}

impl ProxyStatus {
    pub closed spec fn spec_enabled(&self) -> bool {
        self.enabled
    }

    pub closed spec fn spec_saved(&self) -> Seq<(Seq<char>, (ProxyFields, ProxyFields, ProxyFields))> {
        saved_view(self.original_settings@)
    }

    pub fn is_enabled(&self) -> (r: bool)
        ensures
            r == self.spec_enabled(),
    {
        self.enabled
    }

    pub fn set_enabled(&mut self, enabled: bool)
        ensures
            final(self).spec_enabled() == enabled,
            final(self).spec_saved() == old(self).spec_saved(),
    {
        self.enabled = enabled;
    }

    pub fn save_original_settings(&mut self, settings: Vec<(String, NetworkProxySettings)>)
        ensures
            final(self).spec_saved() == saved_view(settings@),
            final(self).spec_enabled() == old(self).spec_enabled(),
    {
        self.original_settings = settings;
    }

    pub fn get_original_settings(&self) -> (r: Vec<(String, NetworkProxySettings)>)
        ensures
            saved_view(r@) == self.spec_saved(),
    {
        let mut out: Vec<(String, NetworkProxySettings)> = Vec::new();
        let mut i: usize = 0;
        while i < self.original_settings.len()
            invariant
                i <= self.original_settings@.len(),
                saved_view(out@) == saved_view(self.original_settings@).take(i as int),
            decreases self.original_settings@.len() - i,
        {
            let e = &self.original_settings[i];
            let name = e.0.clone();
            let settings = e.1.duplicate();
            let ghost before = out@;
            let ghost entry_view = (name@, settings_view(settings));
            assert(entry_view == saved_view(self.original_settings@)[i as int]);
            out.push((name, settings));
            assert(saved_view(out@) =~= saved_view(before).push(entry_view));
            i = i + 1;
            assert(saved_view(out@) =~= saved_view(self.original_settings@).take(i as int));
        }
        assert(saved_view(self.original_settings@).take(i as int) =~= saved_view(
            self.original_settings@,
        ));
        out
    }
}

impl Default for ProxyStatus {
    fn default() -> (r: Self)
        ensures
            !r.spec_enabled(),
            r.spec_saved() == Seq::<(Seq<char>, (ProxyFields, ProxyFields, ProxyFields))>::empty(),
    {
        let r = ProxyStatus { enabled: false, original_settings: Vec::new() };
        assert(r.spec_saved() =~= Seq::<(Seq<char>, (ProxyFields, ProxyFields, ProxyFields))>::empty());
        r
    }
}

/// Whether the system proxy is on.
pub fn is_proxy_enabled_impl(state: &ProxyStatus) -> (r: bool)
    ensures
        r == state.spec_enabled(),
{
    state.is_enabled()
}

/// The state `networksetup -get...proxy` output describes, from line `i`
/// on, starting from `acc`: the last `Enabled:`, `Server:` and `Port:`
/// lines (trimmed) win.
pub open spec fn proxy_fields_from(lines: Seq<Seq<char>>, i: int, acc: ProxyFields) -> ProxyFields
    decreases lines.len() - i,
{
    if i < 0 || i >= lines.len() {
        acc
    } else {
        let l = trim(lines[i]);
        let next = if starts_with(l, "Enabled:"@) {
            (contains_seq(l, "Yes"@), acc.1, acc.2)
        } else if starts_with(l, "Server:"@) {
            (acc.0, trim(replace_all(l, "Server:"@, Seq::empty())), acc.2)
        } else if starts_with(l, "Port:"@) {
            (acc.0, acc.1, trim(replace_all(l, "Port:"@, Seq::empty())))
        } else {
            acc
        };
        proxy_fields_from(lines, i + 1, next)
    }
}

pub open spec fn proxy_fields_of(output: Option<Seq<char>>) -> ProxyFields {
    match output {
        Some(o) => proxy_fields_from(lines_of(o), 0, (false, Seq::empty(), Seq::empty())),
        None => (false, Seq::empty(), Seq::empty()),
    }
}

fn after_label(l: &[char], label: &str) -> (r: Vec<char>)
    ensures
        r@ == trim(replace_all(l@, label@, Seq::empty())),
{
    let pat = str_to_chars(label);
    if pat.len() == 0 {
        return chars_trim(l);
    }
    let none: Vec<char> = Vec::new();
    let replaced = chars_replace(l, pat.as_slice(), none.as_slice());
    assert(none@ =~= Seq::<char>::empty());
    chars_trim(replaced.as_slice())
}

/// Reads one proxy's state out of `networksetup -get...proxy` output.
pub fn parse_proxy_output(output: &str) -> (r: (bool, String, String))
    ensures
        (r.0, r.1@, r.2@) == proxy_fields_of(Some(output@)),
{
    let chars = str_to_chars(output);
    let lines = chars_lines(chars.as_slice());
    let ghost ls = char_seqs(lines@);
    let enabled_l = str_to_chars("Enabled:");
    let server_l = str_to_chars("Server:");
    let port_l = str_to_chars("Port:");
    let yes = str_to_chars("Yes");
    proof {
        reveal_strlit("Enabled:");
        reveal_strlit("Server:");
        reveal_strlit("Port:");
        reveal_strlit("Yes");
    }
    let mut enabled = false;
    let mut server: Vec<char> = Vec::new();
    let mut port: Vec<char> = Vec::new();
    let mut i: usize = 0;
    while i < lines.len()
        invariant
            i <= lines@.len(),
            ls == char_seqs(lines@),
            ls == lines_of(output@),
            enabled_l@ == "Enabled:"@,
            server_l@ == "Server:"@,
            port_l@ == "Port:"@,
            yes@ == "Yes"@,
            proxy_fields_of(Some(output@)) == proxy_fields_from(
                ls,
                i as int,
                (enabled, server@, port@),
            ),
        decreases lines@.len() - i,
    {
        assert(ls[i as int] == lines@[i as int]@);
        let l = chars_trim(lines[i].as_slice());
        if chars_starts_with(l.as_slice(), enabled_l.as_slice()) {
            enabled = chars_contains(l.as_slice(), yes.as_slice());
        } else if chars_starts_with(l.as_slice(), server_l.as_slice()) {
            server = after_label(l.as_slice(), "Server:");
        } else if chars_starts_with(l.as_slice(), port_l.as_slice()) {
            port = after_label(l.as_slice(), "Port:");
        }
        i = i + 1;
    }
    (enabled, chars_to_string(server.as_slice()), chars_to_string(port.as_slice()))
}

/// The settings of a network service, from the outputs of the web, secure
/// web and SOCKS proxy queries (`None` where a query failed).
pub fn read_proxy_settings(web: Option<&str>, secure: Option<&str>, socks: Option<&str>) -> (r:
    NetworkProxySettings)
    ensures
        settings_view(r) == (
            proxy_fields_of(str_opt(web)),
            proxy_fields_of(str_opt(secure)),
            proxy_fields_of(str_opt(socks)),
        ),
{
    let (a, b, c) = match web {
        Some(o) => parse_proxy_output(o),
        None => (false, String::new(), String::new()),
    };
    let (d, e, f) = match secure {
        Some(o) => parse_proxy_output(o),
        None => (false, String::new(), String::new()),
    };
    let (g, h, k) = match socks {
        Some(o) => parse_proxy_output(o),
        None => (false, String::new(), String::new()),
    };
    NetworkProxySettings {
        web_proxy_enabled: a,
        web_proxy_server: b,
        web_proxy_port: c,
        secure_web_proxy_enabled: d,
        secure_web_proxy_server: e,
        secure_web_proxy_port: f,
        socks_proxy_enabled: g,
        socks_proxy_server: h,
        socks_proxy_port: k,
    }
}

pub open spec fn str_opt(o: Option<&str>) -> Option<Seq<char>> {
    match o {
        Some(s) => Some(s@),
        None => None,
    }
}

/// The active network services `networksetup -listallnetworkservices`
/// lists, from line `i` on: lines not starting with `*` (disabled) and not
/// blank, trimmed.
pub open spec fn services_from(lines: Seq<Seq<char>>, i: int) -> Seq<Seq<char>>
    decreases lines.len() - i,
{
    if i < 0 || i >= lines.len() {
        Seq::empty()
    } else if !starts_with(lines[i], "*"@) && trim(lines[i]).len() > 0 {
        seq![trim(lines[i])] + services_from(lines, i + 1)
    } else {
        services_from(lines, i + 1)
    }
}

pub open spec fn strings_view(v: Seq<String>) -> Seq<Seq<char>> {
    v.map_values(|s: String| s@)
}

/// The active network services listed in `networksetup` output.
pub fn active_services_from(output: &str) -> (r: Vec<String>)
    ensures
        strings_view(r@) == services_from(lines_of(output@), 0),
{
    let chars = str_to_chars(output);
    let lines = chars_lines(chars.as_slice());
    let ghost ls = char_seqs(lines@);
    let star = str_to_chars("*");
    let mut out: Vec<String> = Vec::new();
    let mut i: usize = 0;
    while i < lines.len()
        invariant
            i <= lines@.len(),
            ls == char_seqs(lines@),
            ls == lines_of(output@),
            star@ == "*"@,
            services_from(ls, 0) == strings_view(out@) + services_from(ls, i as int),
        decreases lines@.len() - i,
    {
        assert(ls[i as int] == lines@[i as int]@);
        let line = lines[i].as_slice();
        let t = chars_trim(line);
        if !chars_starts_with(line, star.as_slice()) && t.len() > 0 {
            let name = chars_to_string(t.as_slice());
            proof {
                assert(strings_view(out@.push(name)) =~= strings_view(out@).push(name@));
                assert(strings_view(out@) + (seq![t@] + services_from(ls, i + 1)) =~= strings_view(
                    out@,
                ).push(name@) + services_from(ls, i + 1));
            }
            out.push(name);
        }
        i = i + 1;
    }
    assert(strings_view(out@) + Seq::<Seq<char>>::empty() =~= strings_view(out@));
    out
}

#[derive(Clone)]
pub struct ProxyChangeInfo {
    pub service: String,
    pub changed_by: String,
}

/// The proxy of one kind points elsewhere than this application's port:
/// enabled, with a server, and not `127.0.0.1` at `port`.
pub open spec fn foreign(f: ProxyFields, port: u16) -> bool {
    f.0 && f.1.len() > 0 && (f.1 != "127.0.0.1"@ || f.2 != dec(port as nat))
}

/// The changes found in one service's settings: the web, secure web and
/// SOCKS proxies, in that order, that point elsewhere, each as
/// `server:port`.
pub open spec fn service_changes(service: Seq<char>, s: (ProxyFields, ProxyFields, ProxyFields), port: u16) -> Seq<(Seq<char>, Seq<char>)> {
    (if foreign(s.0, port) {
        seq![(service, s.0.1 + ":"@ + s.0.2)]
    } else {
        Seq::empty()
    }) + (if foreign(s.1, port) {
        seq![(service, s.1.1 + ":"@ + s.1.2)]
    } else {
        Seq::empty()
    }) + (if foreign(s.2, port) {
        seq![(service, s.2.1 + ":"@ + s.2.2)]
    } else {
        Seq::empty()
    })
}

pub open spec fn all_changes(v: Seq<(Seq<char>, (ProxyFields, ProxyFields, ProxyFields))>, port: u16) -> Seq<(Seq<char>, Seq<char>)>
    decreases v.len(),
{
    if v.len() == 0 {
        Seq::empty()
    } else {
        all_changes(v.drop_last(), port) + service_changes(v.last().0, v.last().1, port)
    }
}

pub open spec fn changes_view(v: Seq<ProxyChangeInfo>) -> Seq<(Seq<char>, Seq<char>)> {
    v.map_values(|c: ProxyChangeInfo| (c.service@, c.changed_by@))
}

/// A proxy taken over by another program: switched on, naming a server,
/// and other than this application's own `127.0.0.1` at `port`.
pub open spec fn taken_over(f: ProxyFields, port: u16) -> bool {
    &&& f.0
    &&& f.1.len() > 0
    &&& !(f.1 == "127.0.0.1"@ && f.2 == dec(port as nat))
}

/// The web (0), secure web (1) or SOCKS (2) proxy of a service.
pub open spec fn proxy_kind(s: (ProxyFields, ProxyFields, ProxyFields), k: int) -> ProxyFields {
    if k == 0 {
        s.0
    } else if k == 1 {
        s.1
    } else {
        s.2
    }
}

/// How many proxies of the services `v` were taken over.
pub open spec fn taken_over_count(v: Seq<(Seq<char>, (ProxyFields, ProxyFields, ProxyFields))>, port: u16) -> nat
    decreases v.len(),
{
    if v.len() == 0 {
        0
    } else {
        taken_over_count(v.drop_last(), port) + (if taken_over(v.last().1.0, port) {
            1nat
        } else {
            0nat
        }) + (if taken_over(v.last().1.1, port) {
            1nat
        } else {
            0nat
        }) + (if taken_over(v.last().1.2, port) {
            1nat
        } else {
            0nat
        })
    }
}

/// Every proxy of every kind (web, secure web, SOCKS) that was taken over
/// is reported once, as its service and `server:port`; nothing else is
/// reported.
pub proof fn lemma_changes_report_taken_over_proxies(
    v: Seq<(Seq<char>, (ProxyFields, ProxyFields, ProxyFields))>,
    port: u16,
)
    ensures
        all_changes(v, port).len() == taken_over_count(v, port),
        forall|i: int, k: int|
            0 <= i < v.len() && 0 <= k < 3 && #[trigger] taken_over(proxy_kind(v[i].1, k), port)
                ==> all_changes(v, port).contains(
                (v[i].0, proxy_kind(v[i].1, k).1 + ":"@ + proxy_kind(v[i].1, k).2),
            ),
        forall|e: (Seq<char>, Seq<char>)|
            #[trigger] all_changes(v, port).contains(e) ==> exists|i: int, k: int|
                0 <= i < v.len() && 0 <= k < 3 && #[trigger] taken_over(proxy_kind(v[i].1, k), port) && e
                    == (v[i].0, proxy_kind(v[i].1, k).1 + ":"@ + proxy_kind(v[i].1, k).2),
    decreases v.len(),
{
    if v.len() > 0 {
        let w = v.drop_last();
        let x = v.last();
        let last = v.len() - 1;
        lemma_changes_report_taken_over_proxies(w, port);
        let front = all_changes(w, port);
        let sc = service_changes(x.0, x.1, port);
        assert(all_changes(v, port) == front + sc);
        assert forall|k: int| 0 <= k < 3 implies #[trigger] foreign(proxy_kind(x.1, k), port) == taken_over(
            proxy_kind(x.1, k),
            port,
        ) by {}
        assert(foreign(x.1.0, port) == taken_over(x.1.0, port));
        assert(foreign(x.1.1, port) == taken_over(x.1.1, port));
        assert(foreign(x.1.2, port) == taken_over(x.1.2, port));
        assert(proxy_kind(x.1, 0) == x.1.0 && proxy_kind(x.1, 1) == x.1.1 && proxy_kind(x.1, 2) == x.1.2);
        // Completeness.
        assert forall|i: int, k: int|
            0 <= i < v.len() && 0 <= k < 3 && #[trigger] taken_over(proxy_kind(v[i].1, k), port) implies all_changes(
            v,
            port,
        ).contains((v[i].0, proxy_kind(v[i].1, k).1 + ":"@ + proxy_kind(v[i].1, k).2)) by {
            let e = (v[i].0, proxy_kind(v[i].1, k).1 + ":"@ + proxy_kind(v[i].1, k).2);
            if i < last {
                assert(v[i] == w[i]);
                assert(taken_over(proxy_kind(w[i].1, k), port));
                let m = choose|m: int| 0 <= m < front.len() && front[m] == e;
                assert((front + sc)[m] == e);
            } else {
                assert(v[i] == x);
                let a: Seq<(Seq<char>, Seq<char>)> = if foreign(x.1.0, port) {
                    seq![(x.0, x.1.0.1 + ":"@ + x.1.0.2)]
                } else {
                    Seq::empty()
                };
                let b: Seq<(Seq<char>, Seq<char>)> = if foreign(x.1.1, port) {
                    seq![(x.0, x.1.1.1 + ":"@ + x.1.1.2)]
                } else {
                    Seq::empty()
                };
                let c: Seq<(Seq<char>, Seq<char>)> = if foreign(x.1.2, port) {
                    seq![(x.0, x.1.2.1 + ":"@ + x.1.2.2)]
                } else {
                    Seq::empty()
                };
                assert(sc == a + b + c);
                let pos: int = if k == 0 {
                    0
                } else if k == 1 {
                    a.len() as int
                } else {
                    (a.len() + b.len()) as int
                };
                assert(sc[pos] == e);
                assert((front + sc)[front.len() + pos] == e);
            }
        }
        // Soundness.
        assert forall|e: (Seq<char>, Seq<char>)| #[trigger] all_changes(v, port).contains(e) implies exists|
            i: int,
            k: int,
        |
            0 <= i < v.len() && 0 <= k < 3 && #[trigger] taken_over(proxy_kind(v[i].1, k), port) && e == (
                v[i].0,
                proxy_kind(v[i].1, k).1 + ":"@ + proxy_kind(v[i].1, k).2,
            ) by {
            let n = choose|n: int| 0 <= n < (front + sc).len() && (front + sc)[n] == e;
            if n < front.len() {
                assert(front.contains(e));
                let (i, k) = choose|i: int, k: int|
                    0 <= i < w.len() && 0 <= k < 3 && #[trigger] taken_over(proxy_kind(w[i].1, k), port) && e
                        == (w[i].0, proxy_kind(w[i].1, k).1 + ":"@ + proxy_kind(w[i].1, k).2);
                assert(v[i] == w[i]);
                assert(taken_over(proxy_kind(v[i].1, k), port));
            } else {
                let a: Seq<(Seq<char>, Seq<char>)> = if foreign(x.1.0, port) {
                    seq![(x.0, x.1.0.1 + ":"@ + x.1.0.2)]
                } else {
                    Seq::empty()
                };
                let b: Seq<(Seq<char>, Seq<char>)> = if foreign(x.1.1, port) {
                    seq![(x.0, x.1.1.1 + ":"@ + x.1.1.2)]
                } else {
                    Seq::empty()
                };
                let c: Seq<(Seq<char>, Seq<char>)> = if foreign(x.1.2, port) {
                    seq![(x.0, x.1.2.1 + ":"@ + x.1.2.2)]
                } else {
                    Seq::empty()
                };
                assert(sc == a + b + c);
                let q = n - front.len();
                assert(sc[q] == e);
                assert(v[last] == x);
                if q < a.len() {
                    assert(taken_over(proxy_kind(v[last].1, 0), port));
                } else if q < a.len() + b.len() {
                    assert(taken_over(proxy_kind(v[last].1, 1), port));
                } else {
                    assert(taken_over(proxy_kind(v[last].1, 2), port));
                }
            }
        }
    }
}

fn is_foreign(enabled: bool, server: &String, port_text: &String, expected: &String) -> (r: bool)
    ensures
        r == (enabled && server@.len() > 0 && (server@ != "127.0.0.1"@ || port_text@ != expected@)),
{
    enabled && !server.as_str().is_empty() && (!str_eq(server.as_str(), "127.0.0.1") || !str_eq(
        port_text.as_str(),
        expected.as_str(),
    ))
}

fn push_change(out: &mut Vec<ProxyChangeInfo>, service: &String, server: &String, port_text: &String)
    ensures
        changes_view(final(out)@) == changes_view(old(out)@).push(
            (service@, server@ + ":"@ + port_text@),
        ),
{
    let mut by = server.clone();
    push_str(&mut by, ":");
    push_str(&mut by, port_text.as_str());
    let c = ProxyChangeInfo { service: service.clone(), changed_by: by };
    let ghost before = out@;
    out.push(c);
    assert(changes_view(out@) =~= changes_view(before).push((service@, server@ + ":"@ + port_text@)));
}

/// The services whose proxies point elsewhere than `127.0.0.1` at `port`,
/// given each service's current settings.
pub fn check_proxy_changes_impl(port: u16, services: &Vec<(String, NetworkProxySettings)>) -> (r: Vec<
    ProxyChangeInfo,
>)
    ensures
        changes_view(r@) == all_changes(saved_view(services@), port),
{
    let expected = u64_to_dec(port as u64);
    let mut out: Vec<ProxyChangeInfo> = Vec::new();
    let mut i: usize = 0;
    while i < services.len()
        invariant
            i <= services@.len(),
            expected@ == dec(port as nat),
            changes_view(out@) == all_changes(saved_view(services@).take(i as int), port),
        decreases services@.len() - i,
    {
        let name = &services[i].0;
        let st = &services[i].1;
        let ghost before = changes_view(out@);
        if is_foreign(st.web_proxy_enabled, &st.web_proxy_server, &st.web_proxy_port, &expected) {
            push_change(&mut out, name, &st.web_proxy_server, &st.web_proxy_port);
        }
        if is_foreign(
            st.secure_web_proxy_enabled,
            &st.secure_web_proxy_server,
            &st.secure_web_proxy_port,
            &expected,
        ) {
            push_change(&mut out, name, &st.secure_web_proxy_server, &st.secure_web_proxy_port);
        }
        if is_foreign(st.socks_proxy_enabled, &st.socks_proxy_server, &st.socks_proxy_port, &expected) {
            push_change(&mut out, name, &st.socks_proxy_server, &st.socks_proxy_port);
        }
        proof {
            let sv = saved_view(services@);
            assert(sv.take(i + 1).drop_last() =~= sv.take(i as int));
            assert(sv.take(i + 1).last() == (name@, settings_view(*st)));
            assert(changes_view(out@) =~= before + service_changes(name@, settings_view(*st), port));
        }
        i = i + 1;
    }
    assert(saved_view(services@).take(i as int) =~= saved_view(services@));
    out
}

// ---------------------------------------------------------------------------
// Messages and command lines
// ---------------------------------------------------------------------------

/// The answer when the system proxy was set on `count` network services.
pub fn proxy_set_message(count: usize) -> (r: String)
    ensures
        r@ == "系统代理已开启，已设置 "@ + dec(count as nat) + " 个网络"@,
{
    let mut s = string_of("系统代理已开启，已设置 ");
    let n = u64_to_dec(count as u64);
    push_str(&mut s, n.as_str());
    push_str(&mut s, " 个网络");
    s
}

/// The answer when the system proxy was pointed at `port`.
pub fn proxy_set_port_message(port: u16) -> (r: String)
    ensures
        r@ == "系统代理已开启，指向端口 "@ + dec(port as nat),
{
    let mut s = string_of("系统代理已开启，指向端口 ");
    push_port(&mut s, port);
    s
}

/// The answer when the system proxy was turned off.
pub const PROXY_UNSET_MESSAGE: &'static str = "系统代理已关闭";

/// The error when no network service is active.
pub const NO_ACTIVE_SERVICE: &'static str = "未找到活动网络服务";

pub open spec fn arg_lists(v: Seq<Vec<String>>) -> Seq<Seq<Seq<char>>> {
    v.map_values(|a: Vec<String>| a@.map_values(|x: String| x@))
}

/// The `networksetup` arguments that put back one proxy of a service: set
/// to its server and port when it was enabled, turned off otherwise.
pub open spec fn restore_one(
    set_flag: Seq<char>,
    state_flag: Seq<char>,
    service: Seq<char>,
    f: ProxyFields,
) -> Seq<Seq<char>> {
    if f.0 {
        seq![set_flag, service, f.1, f.2]
    } else {
        seq![state_flag, service, "off"@]
    }
}

/// The `networksetup` calls that put back a service's saved proxy settings:
/// the web, secure web and SOCKS proxies, in that order.
pub open spec fn restore_calls(service: Seq<char>, s: (ProxyFields, ProxyFields, ProxyFields)) -> Seq<
    Seq<Seq<char>>,
> {
    seq![
        restore_one("-setwebproxy"@, "-setwebproxystate"@, service, s.0),
        restore_one("-setsecurewebproxy"@, "-setsecurewebproxystate"@, service, s.1),
        restore_one("-setsocksfirewallproxy"@, "-setsocksfirewallproxystate"@, service, s.2),
    ]
}

/// Putting back a service's saved proxies makes three calls, one per kind
/// and each naming the service second: the web proxy (`-setwebproxy`
/// server port when it was on, else `-setwebproxystate` off), then the
/// secure web proxy (`-setsecurewebproxy` / `-setsecurewebproxystate`),
/// then the SOCKS proxy (`-setsocksfirewallproxy` /
/// `-setsocksfirewallproxystate`). No two calls share their flag.
pub proof fn lemma_restore_targets_each_kind(service: Seq<char>, s: (ProxyFields, ProxyFields, ProxyFields))
    ensures
        restore_calls(service, s).len() == 3,
        restore_calls(service, s)[0] == if s.0.0 {
            seq!["-setwebproxy"@, service, s.0.1, s.0.2]
        } else {
            seq!["-setwebproxystate"@, service, "off"@]
        },
        restore_calls(service, s)[1] == if s.1.0 {
            seq!["-setsecurewebproxy"@, service, s.1.1, s.1.2]
        } else {
            seq!["-setsecurewebproxystate"@, service, "off"@]
        },
        restore_calls(service, s)[2] == if s.2.0 {
            seq!["-setsocksfirewallproxy"@, service, s.2.1, s.2.2]
        } else {
            seq!["-setsocksfirewallproxystate"@, service, "off"@]
        },
        forall|i: int, j: int|
            0 <= i < j < 3 ==> (#[trigger] restore_calls(service, s)[i])[0] != (#[trigger] restore_calls(
                service,
                s,
            )[j])[0],
{
    reveal_strlit("-setwebproxy");
    reveal_strlit("-setwebproxystate");
    reveal_strlit("-setsecurewebproxy");
    reveal_strlit("-setsecurewebproxystate");
    reveal_strlit("-setsocksfirewallproxy");
    reveal_strlit("-setsocksfirewallproxystate");
    let c = restore_calls(service, s);
    // The flags differ in length or in their fifth character.
    assert("-setwebproxy"@.len() == 12 && "-setwebproxystate"@.len() == 17);
    assert("-setsecurewebproxy"@.len() == 18 && "-setsecurewebproxystate"@.len() == 23);
    assert("-setsocksfirewallproxy"@.len() == 22 && "-setsocksfirewallproxystate"@.len() == 27);
    assert("-setwebproxy"@[4] == 'w' && "-setwebproxystate"@[4] == 'w');
    assert("-setsecurewebproxy"@[4] == 's' && "-setsecurewebproxystate"@[4] == 's');
    assert("-setsocksfirewallproxy"@[4] == 's' && "-setsocksfirewallproxystate"@[4] == 's');
    assert("-setsecurewebproxy"@[5] == 'e' && "-setsocksfirewallproxy"@[5] == 'o');
    assert("-setsecurewebproxystate"@[5] == 'e' && "-setsocksfirewallproxystate"@[5] == 'o');
    assert forall|i: int, j: int| 0 <= i < j < 3 implies (#[trigger] c[i])[0] != (#[trigger] c[j])[0] by {
        let a = c[i][0];
        let b = c[j][0];
        if i == 0 {
            assert(a[4] == 'w');
            assert(b[4] == 's');
        } else {
            assert(a[5] == 'e');
            assert(b[5] == 'o');
        }
    }
}

fn restore_one_args(
    set_flag: &str,
    state_flag: &str,
    service: &str,
    enabled: bool,
    server: &String,
    port: &String,
) -> (r: Vec<String>)
    ensures
        r@.map_values(|x: String| x@) == restore_one(
            set_flag@,
            state_flag@,
            service@,
            (enabled, server@, port@),
        ),
{
    let mut v: Vec<String> = Vec::new();
    if enabled {
        v.push(string_of(set_flag));
        v.push(string_of(service));
        v.push(server.clone());
        v.push(port.clone());
    } else {
        v.push(string_of(state_flag));
        v.push(string_of(service));
        v.push(string_of("off"));
    }
    assert(v@.map_values(|x: String| x@) =~= restore_one(
        set_flag@,
        state_flag@,
        service@,
        (enabled, server@, port@),
    ));
    v
}

/// The `networksetup` argument lists that put back a service's saved proxy
/// settings.
pub fn restore_proxy_args(service: &str, settings: &NetworkProxySettings) -> (r: Vec<Vec<String>>)
    ensures
        arg_lists(r@) == restore_calls(service@, settings_view(*settings)),
{
    let mut v: Vec<Vec<String>> = Vec::new();
    v.push(
        restore_one_args(
            "-setwebproxy",
            "-setwebproxystate",
            service,
            settings.web_proxy_enabled,
            &settings.web_proxy_server,
            &settings.web_proxy_port,
        ),
    );
    v.push(
        restore_one_args(
            "-setsecurewebproxy",
            "-setsecurewebproxystate",
            service,
            settings.secure_web_proxy_enabled,
            &settings.secure_web_proxy_server,
            &settings.secure_web_proxy_port,
        ),
    );
    v.push(
        restore_one_args(
            "-setsocksfirewallproxy",
            "-setsocksfirewallproxystate",
            service,
            settings.socks_proxy_enabled,
            &settings.socks_proxy_server,
            &settings.socks_proxy_port,
        ),
    );
    assert(arg_lists(v@) =~= restore_calls(service@, settings_view(*settings)));
    v
}

/// The `networksetup` calls that point a service's web, secure web and
/// SOCKS proxies at `127.0.0.1:port`.
pub open spec fn set_calls(service: Seq<char>, port: u16) -> Seq<Seq<Seq<char>>> {
    seq![
        seq!["-setwebproxy"@, service, "127.0.0.1"@, dec(port as nat)],
        seq!["-setsecurewebproxy"@, service, "127.0.0.1"@, dec(port as nat)],
        seq!["-setsocksfirewallproxy"@, service, "127.0.0.1"@, dec(port as nat)],
    ]
}

fn set_one_args(flag: &str, service: &str, port: u16) -> (r: Vec<String>)
    ensures
        r@.map_values(|x: String| x@) == seq![flag@, service@, "127.0.0.1"@, dec(port as nat)],
{
    let mut v: Vec<String> = Vec::new();
    v.push(string_of(flag));
    v.push(string_of(service));
    v.push(string_of("127.0.0.1"));
    v.push(u64_to_dec(port as u64));
    assert(v@.map_values(|x: String| x@) =~= seq![flag@, service@, "127.0.0.1"@, dec(port as nat)]);
    v
}

/// The `networksetup` argument lists that point a service's proxies at this
/// application's port.
pub fn set_proxy_args(service: &str, port: u16) -> (r: Vec<Vec<String>>)
    ensures
        arg_lists(r@) == set_calls(service@, port),
{
    let mut v: Vec<Vec<String>> = Vec::new();
    v.push(set_one_args("-setwebproxy", service, port));
    v.push(set_one_args("-setsecurewebproxy", service, port));
    v.push(set_one_args("-setsocksfirewallproxy", service, port));
    assert(arg_lists(v@) =~= set_calls(service@, port));
    v
}

/// The `networksetup` calls that turn a service's proxies off.
pub open spec fn off_calls(service: Seq<char>) -> Seq<Seq<Seq<char>>> {
    seq![
        seq!["-setwebproxystate"@, service, "off"@],
        seq!["-setsecurewebproxystate"@, service, "off"@],
        seq!["-setsocksfirewallproxystate"@, service, "off"@],
    ]
}

fn off_one_args(flag: &str, service: &str) -> (r: Vec<String>)
    ensures
        r@.map_values(|x: String| x@) == seq![flag@, service@, "off"@],
{
    let mut v: Vec<String> = Vec::new();
    v.push(string_of(flag));
    v.push(string_of(service));
    v.push(string_of("off"));
    assert(v@.map_values(|x: String| x@) =~= seq![flag@, service@, "off"@]);
    v
}

/// The `networksetup` argument lists that turn a service's proxies off.
pub fn unset_proxy_args(service: &str) -> (r: Vec<Vec<String>>)
    ensures
        arg_lists(r@) == off_calls(service@),
{
    let mut v: Vec<Vec<String>> = Vec::new();
    v.push(off_one_args("-setwebproxystate", service));
    v.push(off_one_args("-setsecurewebproxystate", service));
    v.push(off_one_args("-setsocksfirewallproxystate", service));
    assert(arg_lists(v@) =~= off_calls(service@));
    v
}

/// The `ProxyServer` registry value that points HTTP and HTTPS at `port`.
pub fn windows_proxy_server(port: u16) -> (r: String)
    ensures
        r@ == "http="@ + local_url("http"@, port) + ";https="@ + local_url("http"@, port),
{
    let mut s = string_of("http=");
    push_local_url(&mut s, "http", port);
    push_str(&mut s, ";https=");
    push_local_url(&mut s, "http", port);
    s
}

/// The PowerShell command line that runs `command` in a new window and
/// waits for a key (double quotes escaped with a backtick).
pub fn powershell_terminal_command(command: &str) -> (r: String)
    ensures
        r@ == "powershell -NoExit -Command \""@ + replace_all(command@, "\""@, "`\""@)
            + "; Write-Host 'Press any key to exit...' -NoNewLine; $null = $Host.UI.RawUI.ReadKey('NoEcho,IncludeKeyDown')\""@,
{
    let c = str_to_chars(command);
    let q = str_to_chars("\"");
    let rq = str_to_chars("`\"");
    proof {
        reveal_strlit("\"");
    }
    let escaped = chars_replace(c.as_slice(), q.as_slice(), rq.as_slice());
    let mut s = string_of("powershell -NoExit -Command \"");
    crate::text::push_chars(&mut s, escaped.as_slice());
    push_str(
        &mut s,
        "; Write-Host 'Press any key to exit...' -NoNewLine; $null = $Host.UI.RawUI.ReadKey('NoEcho,IncludeKeyDown')\"",
    );
    s
}

/// The AppleScript that runs `command` in a new Terminal window
/// (backslashes, then double quotes, escaped).
pub fn terminal_apple_script(command: &str) -> (r: String)
    ensures
        r@ == "tell application \"Terminal\" to do script \""@ + replace_all(
            replace_all(command@, "\\"@, "\\\\"@),
            "\""@,
            "\\\""@,
        ) + "\" "@,
{
    let c = str_to_chars(command);
    let bs = str_to_chars("\\");
    let bs2 = str_to_chars("\\\\");
    let q = str_to_chars("\"");
    let bq = str_to_chars("\\\"");
    proof {
        reveal_strlit("\\");
        reveal_strlit("\"");
    }
    let step1 = chars_replace(c.as_slice(), bs.as_slice(), bs2.as_slice());
    let step2 = chars_replace(step1.as_slice(), q.as_slice(), bq.as_slice());
    let mut s = string_of("tell application \"Terminal\" to do script \"");
    crate::text::push_chars(&mut s, step2.as_slice());
    push_str(&mut s, "\" ");
    s
}

// ---------------------------------------------------------------------------
// Detecting proxy applications in listings of listening sockets
// ---------------------------------------------------------------------------

/// What capture group `group` of the first match of the regular expression
/// `pattern` in `text` holds, when there is a match and the group took part
/// in it.
pub uninterp spec fn regex_group(pattern: Seq<char>, text: Seq<char>, group: nat) -> Option<Seq<char>>;

/// Calls `regex::Regex::new(pattern)`, then `captures(text)` and
/// `get(group)` on what they give; claims only that the result (the text of
/// that capture group of the first match; `None` for no match, a group that
/// took no part, or a pattern that does not compile) is the named value,
/// which depends on the three arguments alone.
#[verifier::external_body]
fn capture_group(pattern: &str, text: &str, group: usize) -> (r: Option<String>)
    ensures
        opt_view(r) == regex_group(pattern@, text@, group as nat),
{
    let re = regex::Regex::new(pattern).ok()?;
    let caps = re.captures(text)?;
    let m = caps.get(group)?;
    Some(m.as_str().to_string())
}

/// The listening port in an `lsof -iTCP -sTCP:LISTEN -n -P` line.
pub const LSOF_PORT_PATTERN: &'static str = r":(\d+)\s+\(LISTEN\)";

/// Port and process id in a `netstat -ano` line.
pub const NETSTAT_PATTERN: &'static str = r"TCP\s+[\d.]+:(\d+)\s+[\d.:]+\s+LISTENING\s+(\d+)";

/// Port and process id in an `ss -tlnp` line.
pub const SS_PATTERN: &'static str = r"\*:(\d+)\s+.*pid=(\d+)";

/// A port in an `ss -tlnp` line without a process id.
pub const SS_SIMPLE_PATTERN: &'static str = r"\*:(\d+)";

/// One sighting of a proxy application: its name, a port, its process id.
pub type Hit = (Seq<char>, u16, Option<u32>);

/// A detected application: its name, its ports in the order seen, its
/// process id.
pub type AppEntry = (Seq<char>, Seq<u16>, Option<u32>);

pub open spec fn app_entry(a: ProxyApp) -> AppEntry {
    (a.name@, a.all_ports@, a.pid)
}

pub open spec fn app_entries(v: Seq<ProxyApp>) -> Seq<AppEntry> {
    v.map_values(|a: ProxyApp| app_entry(a))
}

/// The fields a detected application starts with and keeps: host
/// 127.0.0.1, nothing tested, no HTTP or SOCKS port chosen.
pub open spec fn fresh_app(a: ProxyApp) -> bool {
    &&& a.host@ == "127.0.0.1"@
    &&& a.http_port is None
    &&& a.socks_port is None
    &&& a.tested_http is None
    &&& a.tested_socks is None
    &&& a.tested is None
    &&& a.latency_ms is None
}

pub open spec fn all_fresh(v: Seq<ProxyApp>) -> bool {
    forall|i: int| 0 <= i < v.len() ==> fresh_app(#[trigger] v[i])
}

/// Index of the entry named `name`.
pub open spec fn find_entry(apps: Seq<AppEntry>, name: Seq<char>) -> Option<int>
    decreases apps.len(),
{
    if apps.len() == 0 {
        None
    } else if apps[0].0 == name {
        Some(0)
    } else {
        match find_entry(apps.drop_first(), name) {
            Some(i) => Some(i + 1),
            None => None,
        }
    }
}

proof fn lemma_find_entry(apps: Seq<AppEntry>, name: Seq<char>)
    ensures
        match find_entry(apps, name) {
            Some(i) => 0 <= i < apps.len() && apps[i].0 == name && forall|j: int|
                0 <= j < i ==> apps[j].0 != name,
            None => forall|j: int| 0 <= j < apps.len() ==> apps[j].0 != name,
        },
    decreases apps.len(),
{
    if apps.len() > 0 {
        lemma_find_entry(apps.drop_first(), name);
        assert forall|j: int| 0 < j < apps.len() implies apps[j] == apps.drop_first()[j - 1] by {}
    }
}

/// A sighting added to the detected applications: a new application, or
/// a new port of a known one.
pub open spec fn merge_hit(apps: Seq<AppEntry>, h: Hit) -> Seq<AppEntry> {
    match find_entry(apps, h.0) {
        None => apps.push((h.0, seq![h.1], h.2)),
        Some(i) => if apps[i].1.contains(h.1) {
            apps
        } else {
            apps.update(i, (apps[i].0, apps[i].1.push(h.1), apps[i].2))
        },
    }
}

fn add_hit(apps: &mut Vec<ProxyApp>, name: String, port: u16, pid: Option<u32>)
    requires
        all_fresh(old(apps)@),
    ensures
        all_fresh(final(apps)@),
        app_entries(final(apps)@) == merge_hit(app_entries(old(apps)@), (name@, port, pid)),
{
    let ghost entries = app_entries(apps@);
    proof {
        lemma_find_entry(entries, name@);
    }
    let n = apps.len();
    let mut i: usize = 0;
    while i < n
        invariant
            n == apps@.len(),
            i <= n,
            entries == app_entries(apps@),
            forall|j: int| 0 <= j < i ==> entries[j].0 != name@,
        ensures
            i <= n,
            forall|j: int| 0 <= j < i ==> entries[j].0 != name@,
            i < n ==> entries[i as int].0 == name@,
        decreases n - i,
    {
        if str_eq(apps[i].name.as_str(), name.as_str()) {
            break;
        }
        i = i + 1;
    }
    if i == n {
        assert(find_entry(entries, name@) is None);
        let mut ports: Vec<u16> = Vec::new();
        ports.push(port);
        let a = ProxyApp {
            name,
            host: string_of("127.0.0.1"),
            http_port: None,
            socks_port: None,
            all_ports: ports,
            pid,
            tested_http: None,
            tested_socks: None,
            tested: None,
            latency_ms: None,
        };
        let ghost before = apps@;
        apps.push(a);
        assert(app_entries(apps@) =~= app_entries(before).push(app_entry(a)));
        assert(app_entry(a) == (name@, seq![port], pid));
    } else {
        assert(entries[i as int].0 == name@);
        assert(find_entry(entries, name@) == Some(i as int));
        let existing = &apps[i];
        let mut seen = false;
        let mut k: usize = 0;
        while k < existing.all_ports.len()
            invariant
                k <= existing.all_ports@.len(),
                seen == existing.all_ports@.take(k as int).contains(port),
            decreases existing.all_ports@.len() - k,
        {
            let ghost before = existing.all_ports@.take(k as int);
            let ghost after = existing.all_ports@.take(k + 1);
            if existing.all_ports[k] == port {
                seen = true;
            }
            proof {
                assert(after =~= before.push(existing.all_ports@[k as int]));
                if existing.all_ports@[k as int] == port {
                    assert(after[k as int] == port);
                }
                if before.contains(port) {
                    let j = choose|j: int| 0 <= j < before.len() && before[j] == port;
                    assert(after[j] == port);
                }
                if after.contains(port) {
                    let j = choose|j: int| 0 <= j < after.len() && after[j] == port;
                    if j < k {
                        assert(before[j] == port);
                    }
                }
            }
            k = k + 1;
        }
        assert(existing.all_ports@.take(k as int) =~= existing.all_ports@);
        if !seen {
            let mut ports: Vec<u16> = Vec::new();
            let mut m: usize = 0;
            while m < existing.all_ports.len()
                invariant
                    m <= existing.all_ports@.len(),
                    ports@ == existing.all_ports@.take(m as int),
                decreases existing.all_ports@.len() - m,
            {
                ports.push(existing.all_ports[m]);
                m = m + 1;
                assert(ports@ =~= existing.all_ports@.take(m as int));
            }
            assert(existing.all_ports@.take(m as int) =~= existing.all_ports@);
            ports.push(port);
            let a = ProxyApp {
                name: existing.name.clone(),
                host: existing.host.clone(),
                http_port: existing.http_port,
                socks_port: existing.socks_port,
                all_ports: ports,
                pid: existing.pid,
                tested_http: existing.tested_http,
                tested_socks: existing.tested_socks,
                tested: existing.tested,
                latency_ms: existing.latency_ms,
            };
            let ghost before = apps@;
            apps.set(i, a);
            assert(app_entries(apps@) =~= app_entries(before).update(
                i as int,
                (entries[i as int].0, entries[i as int].1.push(port), entries[i as int].2),
            ));
        }
    }
}

pub open spec fn u32_or(s: Seq<char>, d: u32) -> u32 {
    match parse_unsigned(s, 4294967295) {
        Some(v) => v as u32,
        None => d,
    }
}

/// A line mentions one of `words` (compared lower-cased).
pub open spec fn mentions_any(lower: Seq<char>, words: Seq<Seq<char>>) -> bool {
    exists|i: int| 0 <= i < words.len() && contains_seq(lower, words[i])
}

pub open spec fn lsof_keywords() -> Seq<Seq<char>> {
    seq!["lantern"@, "clash"@, "v2ray"@, "shadowsocks"@, "surge"@, "quantumult"@]
}

pub open spec fn listing_keywords() -> Seq<Seq<char>> {
    seq!["lantern"@, "clash"@, "v2ray"@, "shadowsocks"@]
}

fn mentions(lower: &[char], words: &Vec<Vec<char>>) -> (r: bool)
    ensures
        r == mentions_any(lower@, char_seqs(words@)),
{
    let ghost ws = char_seqs(words@);
    let mut i: usize = 0;
    while i < words.len()
        invariant
            i <= words@.len(),
            ws == char_seqs(words@),
            forall|j: int| 0 <= j < i ==> !contains_seq(lower@, ws[j]),
        decreases words@.len() - i,
    {
        assert(ws[i as int] == words@[i as int]@);
        if chars_contains(lower, words[i].as_slice()) {
            return true;
        }
        i = i + 1;
    }
    false
}

fn keyword_list(six: bool) -> (r: Vec<Vec<char>>)
    ensures
        char_seqs(r@) == if six {
            lsof_keywords()
        } else {
            listing_keywords()
        },
{
    let mut v: Vec<Vec<char>> = Vec::new();
    v.push(str_to_chars("lantern"));
    v.push(str_to_chars("clash"));
    v.push(str_to_chars("v2ray"));
    v.push(str_to_chars("shadowsocks"));
    if six {
        v.push(str_to_chars("surge"));
        v.push(str_to_chars("quantumult"));
    }
    assert(char_seqs(v@) =~= if six {
        lsof_keywords()
    } else {
        listing_keywords()
    });
    v
}

/// What an `lsof` line contributes once the listening-port pattern's group
/// `port_group` is read: for a nonzero port, the application named after
/// the line's first word (its process) and the process id in its second.
pub open spec fn lsof_hit_given(line: Seq<char>, port_group: Option<Seq<char>>) -> Option<Hit> {
    match port_group {
        None => None,
        Some(p) => {
            let port = port_or(p, 0);
            if port == 0 {
                None
            } else {
                let w = words(line);
                let process = if w.len() > 0 {
                    w[0]
                } else {
                    "unknown"@
                };
                let pid = if w.len() > 1 {
                    u32_or(w[1], 0)
                } else {
                    0
                };
                Some((app_name_for(process, lowercase(process)), port, Some(pid)))
            }
        },
    }
}

/// What an `lsof` line contributes: nothing unless it names a proxy
/// application; then what its listening port gives.
pub open spec fn lsof_hit(line: Seq<char>) -> Option<Hit> {
    if !mentions_any(lowercase(line), lsof_keywords()) {
        None
    } else {
        lsof_hit_given(line, regex_group(LSOF_PORT_PATTERN@, line, 1))
    }
}

/// What a `netstat -ano` line contributes once the pattern's port group
/// `port_group` and process-id group `pid_group` are read: for a nonzero
/// port, the application that the `tasklist` output names for the process.
pub open spec fn netstat_hit_given(
    tasklist: Seq<char>,
    port_group: Option<Seq<char>>,
    pid_group: Option<Seq<char>>,
) -> Option<Hit> {
    match port_group {
        None => None,
        Some(p) => {
            let port = port_or(p, 0);
            let pid = match pid_group {
                Some(t) => u32_or(t, 0),
                None => 0,
            };
            if port == 0 {
                None
            } else {
                Some((tasklist_app_name(lines_of(tasklist), pid, 0), port, Some(pid)))
            }
        },
    }
}

/// What a `netstat -ano` line contributes, the application named from the
/// lower-cased `tasklist` output.
pub open spec fn netstat_hit(line: Seq<char>, tasklist: Seq<char>) -> Option<Hit> {
    if !mentions_any(lowercase(line), listing_keywords()) {
        None
    } else {
        netstat_hit_given(
            tasklist,
            regex_group(NETSTAT_PATTERN@, line, 1),
            regex_group(NETSTAT_PATTERN@, line, 2),
        )
    }
}

/// What an `ss -tlnp` line contributes once its patterns are tried: the
/// full pattern's match `full` and port group `full_port`, else the simple
/// pattern's `simple` and `simple_port`; for a nonzero port, the
/// application that the `ps aux` output names.
pub open spec fn ss_hit_given(
    ps: Seq<char>,
    full: Option<Seq<char>>,
    full_port: Option<Seq<char>>,
    simple: Option<Seq<char>>,
    simple_port: Option<Seq<char>>,
) -> Option<Hit> {
    let port_text = if full is Some {
        Some(full_port)
    } else if simple is Some {
        Some(simple_port)
    } else {
        None
    };
    match port_text {
        None => None,
        Some(t) => {
            let port = match t {
                Some(x) => port_or(x, 0),
                None => 0,
            };
            if port == 0 {
                None
            } else {
                Some((ps_app_name(lines_of(ps), 0), port, None))
            }
        },
    }
}

/// What an `ss -tlnp` line contributes, the application named from the
/// lower-cased `ps aux` output.
pub open spec fn ss_hit(line: Seq<char>, ps: Seq<char>) -> Option<Hit> {
    if !mentions_any(lowercase(line), listing_keywords()) {
        None
    } else {
        ss_hit_given(
            ps,
            regex_group(SS_PATTERN@, line, 0),
            regex_group(SS_PATTERN@, line, 1),
            regex_group(SS_SIMPLE_PATTERN@, line, 0),
            regex_group(SS_SIMPLE_PATTERN@, line, 1),
        )
    }
}

/// The applications the listing lines from `i` on add to `acc`, given what
/// each line contributes.
pub open spec fn merge_lines(hits: Seq<Option<Hit>>, i: int, acc: Seq<AppEntry>) -> Seq<AppEntry>
    decreases hits.len() - i,
{
    if i < 0 || i >= hits.len() {
        acc
    } else {
        merge_lines(
            hits,
            i + 1,
            match hits[i] {
                Some(h) => merge_hit(acc, h),
                None => acc,
            },
        )
    }
}

pub open spec fn lsof_hits(lines: Seq<Seq<char>>) -> Seq<Option<Hit>> {
    lines.map_values(|l: Seq<char>| lsof_hit(l))
}

pub open spec fn netstat_hits(lines: Seq<Seq<char>>, tasklist: Seq<char>) -> Seq<Option<Hit>> {
    lines.map_values(|l: Seq<char>| netstat_hit(l, tasklist))
}

pub open spec fn ss_hits(lines: Seq<Seq<char>>, ps: Seq<char>) -> Seq<Option<Hit>> {
    lines.map_values(|l: Seq<char>| ss_hit(l, ps))
}

fn port_or_text(t: &Option<String>) -> (r: u16)
    ensures
        r == match opt_view(*t) {
            Some(x) => port_or(x, 0),
            None => 0,
        },
{
    match t {
        Some(x) => {
            let c = str_to_chars(x.as_str());
            match parse_unsigned_chars(c.as_slice(), 65535) {
                Some(v) => v as u16,
                None => 0,
            }
        },
        None => 0,
    }
}

fn u32_or_chars(c: &[char]) -> (r: u32)
    ensures
        r == u32_or(c@, 0),
{
    match parse_unsigned_chars(c, 4294967295) {
        Some(v) => v as u32,
        None => 0,
    }
}

/// What an `lsof` line contributes, given the text of the listening-port
/// pattern's group (`None` for no match).
pub fn lsof_hit_from_match(line: &[char], port_group: Option<String>) -> (r: Option<
    (String, u16, Option<u32>),
>)
    ensures
        match lsof_hit_given(line@, opt_view(port_group)) {
            Some(h) => r matches Some(x) && (x.0@, x.1, x.2) == h,
            None => r is None,
        },
{
    if port_group.is_none() {
        return None;
    }
    let port = port_or_text(&port_group);
    if port == 0 {
        return None;
    }
    let w = chars_words(line);
    let process = if w.len() > 0 {
        assert(char_seqs(w@)[0] == w@[0]@);
        chars_to_string(w[0].as_slice())
    } else {
        string_of("unknown")
    };
    let pid = if w.len() > 1 {
        assert(char_seqs(w@)[1] == w@[1]@);
        u32_or_chars(w[1].as_slice())
    } else {
        0
    };
    let name = detect_app_name(process.as_str());
    Some((name, port, Some(pid)))
}

fn lsof_line_hit(line: &[char], keywords: &Vec<Vec<char>>) -> (r: Option<(String, u16, Option<u32>)>)
    requires
        char_seqs(keywords@) == lsof_keywords(),
    ensures
        match lsof_hit(line@) {
            Some(h) => r matches Some(x) && (x.0@, x.1, x.2) == h,
            None => r is None,
        },
{
    let text = chars_to_string(line);
    let lower = str_to_lowercase(text.as_str());
    let lower_chars = str_to_chars(lower.as_str());
    if !mentions(lower_chars.as_slice(), keywords) {
        return None;
    }
    let g = capture_group(LSOF_PORT_PATTERN, text.as_str(), 1);
    lsof_hit_from_match(line, g)
}

/// What a `netstat -ano` line contributes, given the texts of the pattern's
/// port and process-id groups and the lower-cased `tasklist` output.
pub fn netstat_hit_from_match(tasklist: &str, port_group: Option<String>, pid_group: Option<String>) -> (r:
    Option<(String, u16, Option<u32>)>)
    ensures
        match netstat_hit_given(tasklist@, opt_view(port_group), opt_view(pid_group)) {
            Some(h) => r matches Some(x) && (x.0@, x.1, x.2) == h,
            None => r is None,
        },
{
    if port_group.is_none() {
        return None;
    }
    let port = port_or_text(&port_group);
    let pid = match pid_group {
        Some(t) => {
            let c = str_to_chars(t.as_str());
            u32_or_chars(c.as_slice())
        },
        None => 0,
    };
    if port == 0 {
        return None;
    }
    let name = detect_app_name_from_tasklist(tasklist, pid);
    Some((name, port, Some(pid)))
}

fn netstat_line_hit(line: &[char], keywords: &Vec<Vec<char>>, tasklist: &str) -> (r: Option<
    (String, u16, Option<u32>),
>)
    requires
        char_seqs(keywords@) == listing_keywords(),
    ensures
        match netstat_hit(line@, tasklist@) {
            Some(h) => r matches Some(x) && (x.0@, x.1, x.2) == h,
            None => r is None,
        },
{
    let text = chars_to_string(line);
    let lower = str_to_lowercase(text.as_str());
    let lower_chars = str_to_chars(lower.as_str());
    if !mentions(lower_chars.as_slice(), keywords) {
        return None;
    }
    let g = capture_group(NETSTAT_PATTERN, text.as_str(), 1);
    if g.is_none() {
        return None;
    }
    let pid = capture_group(NETSTAT_PATTERN, text.as_str(), 2);
    netstat_hit_from_match(tasklist, g, pid)
}

/// What an `ss -tlnp` line contributes, given the full pattern's match and
/// port group, the simple pattern's match and port group (read only where
/// the full pattern did not match), and the lower-cased `ps aux` output.
pub fn ss_hit_from_match(
    ps: &str,
    full: Option<String>,
    full_port: Option<String>,
    simple: Option<String>,
    simple_port: Option<String>,
) -> (r: Option<(String, u16, Option<u32>)>)
    ensures
        match ss_hit_given(ps@, opt_view(full), opt_view(full_port), opt_view(simple), opt_view(simple_port)) {
            Some(h) => r matches Some(x) && (x.0@, x.1, x.2) == h,
            None => r is None,
        },
{
    let port_text = if full.is_some() {
        full_port
    } else if simple.is_some() {
        simple_port
    } else {
        return None;
    };
    let port = port_or_text(&port_text);
    if port == 0 {
        return None;
    }
    let name = detect_app_name_from_ps(ps);
    Some((name, port, None))
}

fn ss_line_hit(line: &[char], keywords: &Vec<Vec<char>>, ps: &str) -> (r: Option<
    (String, u16, Option<u32>),
>)
    requires
        char_seqs(keywords@) == listing_keywords(),
    ensures
        match ss_hit(line@, ps@) {
            Some(h) => r matches Some(x) && (x.0@, x.1, x.2) == h,
            None => r is None,
        },
{
    let text = chars_to_string(line);
    let lower = str_to_lowercase(text.as_str());
    let lower_chars = str_to_chars(lower.as_str());
    if !mentions(lower_chars.as_slice(), keywords) {
        return None;
    }
    let full = capture_group(SS_PATTERN, text.as_str(), 0);
    if full.is_some() {
        let full_port = capture_group(SS_PATTERN, text.as_str(), 1);
        return ss_hit_from_match(ps, full, full_port, None, None);
    }
    let simple = capture_group(SS_SIMPLE_PATTERN, text.as_str(), 0);
    let simple_port = capture_group(SS_SIMPLE_PATTERN, text.as_str(), 1);
    ss_hit_from_match(ps, full, None, simple, simple_port)
}

/// Which listing a detection reads.
pub enum Listing<'a> {
    /// `lsof -iTCP -sTCP:LISTEN -n -P` output.
    Lsof,
    /// `netstat -ano` output, with the lower-cased `tasklist` output.
    Netstat(&'a str),
    /// `ss -tlnp` output, with the lower-cased `ps aux` output.
    Ss(&'a str),
}

pub open spec fn listing_hits(lines: Seq<Seq<char>>, kind: Listing) -> Seq<Option<Hit>> {
    match kind {
        Listing::Lsof => lsof_hits(lines),
        Listing::Netstat(t) => netstat_hits(lines, t@),
        Listing::Ss(p) => ss_hits(lines, p@),
    }
}

/// The proxy applications found in a listing of listening sockets: one per
/// name, with every port it listens on in the order seen.
pub fn detect_proxy_ports_impl(listing: &str, kind: Listing) -> (r: Vec<ProxyApp>)
    ensures
        all_fresh(r@),
        app_entries(r@) == merge_lines(listing_hits(lines_of(listing@), kind), 0, Seq::empty()),
{
    let chars = str_to_chars(listing);
    let lines = chars_lines(chars.as_slice());
    let ghost ls = char_seqs(lines@);
    let ghost hits = listing_hits(ls, kind);
    let keywords = match kind {
        Listing::Lsof => keyword_list(true),
        _ => keyword_list(false),
    };
    let mut apps: Vec<ProxyApp> = Vec::new();
    assert(app_entries(apps@) =~= Seq::<AppEntry>::empty());
    let mut i: usize = 0;
    while i < lines.len()
        invariant
            i <= lines@.len(),
            ls == char_seqs(lines@),
            ls == lines_of(listing@),
            hits == listing_hits(ls, kind),
            hits.len() == ls.len(),
            match kind {
                Listing::Lsof => char_seqs(keywords@) == lsof_keywords(),
                _ => char_seqs(keywords@) == listing_keywords(),
            },
            all_fresh(apps@),
            merge_lines(hits, 0, Seq::empty()) == merge_lines(hits, i as int, app_entries(apps@)),
        decreases lines@.len() - i,
    {
        assert(ls[i as int] == lines@[i as int]@);
        let line = lines[i].as_slice();
        let hit = match kind {
            Listing::Lsof => lsof_line_hit(line, &keywords),
            Listing::Netstat(t) => netstat_line_hit(line, &keywords, t),
            Listing::Ss(p) => ss_line_hit(line, &keywords, p),
        };
        match hit {
            Some((name, port, pid)) => {
                add_hit(&mut apps, name, port, pid);
            },
            None => {},
        }
        i = i + 1;
    }
    apps
}

/// The names of detected applications are distinct.
pub open spec fn distinct_names(apps: Seq<AppEntry>) -> bool {
    forall|i: int, j: int| 0 <= i < j < apps.len() ==> apps[i].0 != apps[j].0
}

/// Adding a sighting keeps the detected applications' names distinct.
pub proof fn lemma_merge_hit_distinct(apps: Seq<AppEntry>, h: Hit)
    requires
        distinct_names(apps),
    ensures
        distinct_names(merge_hit(apps, h)),
{
    lemma_find_entry(apps, h.0);
}

/// Each detected application appears once, however many of its lines a
/// listing holds.
pub proof fn lemma_detected_names_distinct(hits: Seq<Option<Hit>>, i: int, acc: Seq<AppEntry>)
    requires
        distinct_names(acc),
    ensures
        distinct_names(merge_lines(hits, i, acc)),
    decreases hits.len() - i,
{
    if 0 <= i < hits.len() {
        match hits[i] {
            Some(h) => {
                lemma_merge_hit_distinct(acc, h);
                lemma_detected_names_distinct(hits, i + 1, merge_hit(acc, h));
            },
            None => {
                lemma_detected_names_distinct(hits, i + 1, acc);
            },
        }
    }
}

} // verus!
