use xnetify::commands::{
    active_services_from, check_proxy_changes_impl, detect_app_name, detect_app_name_from_ps,
    detect_app_name_from_tasklist, detect_proxy_ports_impl, generate_proxy_command_impl, get_proxy_env_lines,
    is_proxy_enabled_impl, parse_proxy_output, powershell_terminal_command, proxy_profile_content,
    proxy_set_message, proxy_set_port_message, read_proxy_settings, restore_proxy_args, set_proxy_args,
    shell_config_file, strip_proxy_blocks, unset_proxy_args, lsof_hit_from_match, netstat_hit_from_match,
    ss_hit_from_match, http_test_outcome,
    terminal_apple_script, windows_proxy_server, Listing, NetworkProxySettings, ProxyApp, ProxyStatus,
};

fn app(name: &str, http: Option<u16>, socks: Option<u16>) -> ProxyApp {
    ProxyApp {
        name: name.to_string(),
        host: "127.0.0.1".to_string(),
        http_port: http,
        socks_port: socks,
        all_ports: vec![],
        pid: None,
        tested_http: None,
        tested_socks: None,
        tested: None,
        latency_ms: None,
    }
}

#[test]
fn app_names_detected() {
    assert_eq!(detect_app_name("Clash.Meta"), "Clash");
    assert_eq!(detect_app_name("LANTERN"), "Lantern");
    assert_eq!(detect_app_name("v2fly-core"), "V2Ray");
    assert_eq!(detect_app_name("ss-local"), "Shadowsocks");
    assert_eq!(detect_app_name("Surge"), "Surge");
    assert_eq!(detect_app_name("Quantumult X"), "Quantumult");
    assert_eq!(detect_app_name("nginx"), "nginx");
}

#[test]
fn app_names_from_listings() {
    let ps = "user 1 0.0 /usr/bin/clash -d .\nuser 2 0.0 /usr/bin/v2ray run\n";
    assert_eq!(detect_app_name_from_ps(ps), "Clash");
    assert_eq!(detect_app_name_from_ps("nothing\n"), "Unknown");
    let tasklist = "\"clash.exe\",\"1234\",\"console\",\"1\",\"10,000 k\"\n\"v2ray.exe\",\"99\",\"console\"\n";
    // The pid field keeps its quotes, so it never reads as a number.
    assert_eq!(detect_app_name_from_tasklist(tasklist, 1234), "Unknown");
    let plain = "clash.exe, 1234, console\nv2ray.exe, 99, console\n";
    assert_eq!(detect_app_name_from_tasklist(plain, 99), "V2Ray");
    assert_eq!(detect_app_name_from_tasklist(plain, 5), "Unknown");
}

#[test]
fn proxy_commands_per_shell() {
    let apps = vec![app("Clash", Some(7890), Some(7891))];
    let bash = generate_proxy_command_impl(apps.clone(), "zsh".to_string());
    assert_eq!(bash.shell_type, "bash");
    assert_eq!(
        bash.set_command,
        "export http_proxy=\"http://127.0.0.1:7890\" && export https_proxy=\"http://127.0.0.1:7890\" && export HTTP_PROXY=\"http://127.0.0.1:7890\" && export HTTPS_PROXY=\"http://127.0.0.1:7890\" && export ALL_PROXY=\"socks5://127.0.0.1:7891\" && echo \"Proxy configured: HTTP 127.0.0.1:7890\""
    );
    assert_eq!(bash.unset_command, "unset http_proxy https_proxy HTTP_PROXY HTTPS_PROXY ALL_PROXY && echo \"Proxy unset\"");
    let ps = generate_proxy_command_impl(apps.clone(), "powershell".to_string());
    assert_eq!(
        ps.set_command,
        "$env:HTTP_PROXY=\"http://127.0.0.1:7890\"; $env:HTTPS_PROXY=\"http://127.0.0.1:7890\"; echo \"Proxy configured: HTTP 127.0.0.1:7890\""
    );
    assert_eq!(ps.unset_command, "$env:HTTP_PROXY=$null; $env:HTTPS_PROXY=$null; echo \"Proxy unset\"");
    let cmd = generate_proxy_command_impl(apps, "cmd".to_string());
    assert_eq!(
        cmd.set_command,
        "set HTTP_PROXY=http://127.0.0.1:7890 && set HTTPS_PROXY=http://127.0.0.1:7890 && echo Proxy configured: HTTP 127.0.0.1:7890"
    );
    assert_eq!(cmd.unset_command, "set HTTP_PROXY= && set HTTPS_PROXY= && echo Proxy unset");
    let none = generate_proxy_command_impl(vec![], "bash".to_string());
    assert_eq!(none.set_command, "echo No proxy port configured");
    let no_socks = generate_proxy_command_impl(vec![app("X", Some(8080), None)], "bash".to_string());
    assert!(!no_socks.set_command.contains("ALL_PROXY"));
}

#[test]
fn env_lines_per_shell() {
    let a = app("Clash", None, None);
    let (set, unset) = get_proxy_env_lines(&a, "bash");
    assert_eq!(
        set,
        "#PROXY FLOW START\n# Clash proxy config\nexport http_proxy=\"http://127.0.0.1:7890\"\nexport https_proxy=\"http://127.0.0.1:7890\"\nexport HTTP_PROXY=\"http://127.0.0.1:7890\"\nexport HTTPS_PROXY=\"http://127.0.0.1:7890\"\nexport ALL_PROXY=\"socks5://127.0.0.1:7892\"\n#PROXY FLOW END"
    );
    assert_eq!(
        unset,
        "#PROXY FLOW START\n# Clash proxy unset\nunset http_proxy https_proxy HTTP_PROXY HTTPS_PROXY ALL_PROXY\n#PROXY FLOW END"
    );
    let (pset, punset) = get_proxy_env_lines(&app("V", Some(1), Some(2)), "powershell");
    assert_eq!(
        pset,
        "#PROXY FLOW START\n# V proxy config\n$env:HTTP_PROXY=\"http://127.0.0.1:1\"\n$env:HTTPS_PROXY=\"http://127.0.0.1:1\"\n#PROXY FLOW END"
    );
    assert_eq!(punset, "#PROXY FLOW START\n# V proxy unset\n$env:HTTP_PROXY=$null\n$env:HTTPS_PROXY=$null\n#PROXY FLOW END");
    let (fish, fish_unset) = get_proxy_env_lines(&a, "fish");
    assert_eq!(fish, set);
    assert_eq!(fish_unset, "");
}

#[test]
fn profile_blocks_stripped() {
    let content = "alias ll='ls -l'\n#PROXY FLOW START\nexport http_proxy=x\n#PROXY FLOW END\nexport PATH=/bin\n";
    assert_eq!(strip_proxy_blocks(content), "alias ll='ls -l'\nexport PATH=/bin\n");
    assert_eq!(strip_proxy_blocks("a\nb"), "a\nb\n");
    assert_eq!(strip_proxy_blocks(""), "");
    // An unterminated block drops everything after its start.
    assert_eq!(strip_proxy_blocks("a\n#PROXY FLOW START\nb\nc\n"), "a\n");
}

#[test]
fn stripping_twice_changes_nothing() {
    let content = "x\n#PROXY FLOW START\ny\n#PROXY FLOW END\nz\n";
    let once = strip_proxy_blocks(content);
    assert_eq!(strip_proxy_blocks(&once), once);
}

#[test]
fn profile_rewritten_with_new_block() {
    let a = app("Clash", Some(7890), Some(7891));
    let (set, _) = get_proxy_env_lines(&a, "zsh");
    let content = "export A=1\n#PROXY FLOW START\nold\n#PROXY FLOW END\n";
    let written = proxy_profile_content(content, &a, "zsh");
    assert_eq!(written, format!("export A=1\n\n{}\n", set));
    // Writing again replaces the block rather than adding a second one (the
    // empty line before it stays, so one more comes).
    let again = proxy_profile_content(&written, &a, "zsh");
    assert_eq!(again, format!("export A=1\n\n\n{}\n", set));
    assert_eq!(again.matches("#PROXY FLOW START").count(), 1);
}

#[test]
fn shell_files() {
    assert_eq!(shell_config_file("zsh", true), ".zshrc");
    assert_eq!(shell_config_file("bash", true), ".bashrc");
    assert_eq!(shell_config_file("bash", false), ".bash_profile");
    assert_eq!(shell_config_file("fish", false), ".zshrc");
}

#[test]
fn networksetup_output_read() {
    let out = "Enabled: Yes\nServer: 127.0.0.1\nPort: 7890\nAuthenticated Proxy Enabled: 0\n";
    assert_eq!(parse_proxy_output(out), (true, "127.0.0.1".to_string(), "7890".to_string()));
    assert_eq!(parse_proxy_output("Enabled: No\nServer: \nPort: 0\n"), (false, String::new(), "0".to_string()));
    let s = read_proxy_settings(Some(out), None, Some("Enabled: Yes\nServer: 10.0.0.1\nPort: 1080\n"));
    assert!(s.web_proxy_enabled);
    assert_eq!(s.web_proxy_port, "7890");
    assert!(!s.secure_web_proxy_enabled);
    assert_eq!(s.secure_web_proxy_server, "");
    assert_eq!(s.socks_proxy_server, "10.0.0.1");
}

#[test]
fn active_services_listed() {
    let out = "An asterisk (*) denotes that a network service is disabled.\nWi-Fi\n*Bluetooth PAN\n  Thunderbolt Bridge  \n\n";
    // The explanatory first line is not filtered out.
    assert_eq!(
        active_services_from(out),
        vec![
            "An asterisk (*) denotes that a network service is disabled.".to_string(),
            "Wi-Fi".to_string(),
            "Thunderbolt Bridge".to_string()
        ]
    );
}

#[test]
fn proxy_changes_found() {
    let mine = NetworkProxySettings {
        web_proxy_enabled: true,
        web_proxy_server: "127.0.0.1".to_string(),
        web_proxy_port: "7890".to_string(),
        ..Default::default()
    };
    let other = NetworkProxySettings {
        web_proxy_enabled: true,
        web_proxy_server: "127.0.0.1".to_string(),
        web_proxy_port: "8888".to_string(),
        socks_proxy_enabled: true,
        socks_proxy_server: "10.0.0.9".to_string(),
        socks_proxy_port: "1080".to_string(),
        secure_web_proxy_enabled: false,
        secure_web_proxy_server: "1.1.1.1".to_string(),
        secure_web_proxy_port: "1".to_string(),
    };
    let services = vec![("Wi-Fi".to_string(), mine), ("Ethernet".to_string(), other)];
    let changes = check_proxy_changes_impl(7890, &services);
    let got: Vec<(String, String)> = changes.iter().map(|c| (c.service.clone(), c.changed_by.clone())).collect();
    assert_eq!(
        got,
        vec![
            ("Ethernet".to_string(), "127.0.0.1:8888".to_string()),
            ("Ethernet".to_string(), "10.0.0.9:1080".to_string()),
        ]
    );
    assert!(check_proxy_changes_impl(8888, &services[..1].to_vec()).len() == 1);
}

#[test]
fn proxy_status_kept() {
    let mut st = ProxyStatus::default();
    assert!(!is_proxy_enabled_impl(&st));
    st.set_enabled(true);
    assert!(st.is_enabled());
    st.save_original_settings(vec![("Wi-Fi".to_string(), NetworkProxySettings::default())]);
    let saved = st.get_original_settings();
    assert_eq!(saved.len(), 1);
    assert_eq!(saved[0].0, "Wi-Fi");
    assert!(is_proxy_enabled_impl(&st));
}

#[test]
fn messages_and_scripts() {
    assert_eq!(proxy_set_message(2), "系统代理已开启，已设置 2 个网络");
    assert_eq!(proxy_set_port_message(7890), "系统代理已开启，指向端口 7890");
    assert_eq!(windows_proxy_server(7890), "http=http://127.0.0.1:7890;https=http://127.0.0.1:7890");
    assert_eq!(
        powershell_terminal_command("echo \"hi\""),
        "powershell -NoExit -Command \"echo `\"hi`\"; Write-Host 'Press any key to exit...' -NoNewLine; $null = $Host.UI.RawUI.ReadKey('NoEcho,IncludeKeyDown')\""
    );
    assert_eq!(
        terminal_apple_script("echo \"a\\b\""),
        "tell application \"Terminal\" to do script \"echo \\\"a\\\\b\\\"\" "
    );
}

#[test]
fn listening_ports_from_lsof() {
    let out = "COMMAND PID USER FD TYPE DEVICE SIZE/OFF NODE NAME\nclash 501 u 10u IPv4 0x1 0t0 TCP 127.0.0.1:7890 (LISTEN)\nclash 501 u 11u IPv4 0x2 0t0 TCP 127.0.0.1:7891 (LISTEN)\nclash 501 u 12u IPv4 0x3 0t0 TCP 127.0.0.1:7890 (LISTEN)\nnginx 7 u 5u IPv4 0x4 0t0 TCP *:80 (LISTEN)\nLantern 88 u 5u IPv4 0x5 0t0 TCP 127.0.0.1:0 (LISTEN)\n";
    let apps = detect_proxy_ports_impl(out, Listing::Lsof);
    assert_eq!(apps.len(), 1);
    assert_eq!(apps[0].name, "Clash");
    assert_eq!(apps[0].all_ports, vec![7890, 7891]);
    assert_eq!(apps[0].pid, Some(501));
    assert_eq!(apps[0].host, "127.0.0.1");
    assert!(apps[0].http_port.is_none() && apps[0].socks_port.is_none());
}

#[test]
fn listening_ports_from_netstat() {
    let out = "  TCP    127.0.0.1:7890         0.0.0.0:0              LISTENING       4321 clash\n  TCP    127.0.0.1:80           0.0.0.0:0              LISTENING       4 system\n";
    let tasklist = "clash-verge.exe, 4321, console\n";
    let apps = detect_proxy_ports_impl(out, Listing::Netstat(tasklist));
    assert_eq!(apps.len(), 1);
    assert_eq!(apps[0].name, "Clash");
    assert_eq!(apps[0].all_ports, vec![7890]);
    assert_eq!(apps[0].pid, Some(4321));
}

#[test]
fn listening_ports_from_ss() {
    let out = "LISTEN 0 128 *:7890 *:* users:((\"clash\",pid=77,fd=3))\nLISTEN 0 128 *:1080 *:* v2ray\n";
    let ps = "root 77 clash\n";
    let apps = detect_proxy_ports_impl(out, Listing::Ss(ps));
    assert_eq!(apps.len(), 1);
    assert_eq!(apps[0].name, "Clash");
    assert_eq!(apps[0].all_ports, vec![7890, 1080]);
    assert_eq!(apps[0].pid, None);
}

#[test]
fn removing_after_writing_restores_profile() {
    let content = "export A=1\n#PROXY FLOW START\nold\n#PROXY FLOW END\nalias x=y\n";
    for shell in ["zsh", "bash", "powershell", "fish"] {
        let written = proxy_profile_content(content, &app("Clash", Some(7890), None), shell);
        assert_eq!(strip_proxy_blocks(&written), format!("{}\n", strip_proxy_blocks(content)));
    }
}

#[test]
fn written_block_strips_away() {
    for name in ["Clash", "two\nlines", "x\n#PROXY FLOW START"] {
        for shell in ["zsh", "powershell"] {
            let (set, _) = get_proxy_env_lines(&app(name, Some(1080), Some(1081)), shell);
            assert_eq!(strip_proxy_blocks(&format!("{}\n", set)), "");
            let written = proxy_profile_content("a\n", &app(name, Some(1080), None), shell);
            assert_eq!(strip_proxy_blocks(&written), "a\n\n");
        }
    }
    let (set, _) = get_proxy_env_lines(&app("#PROXY FLOW END", None, None), "zsh");
    assert_ne!(strip_proxy_blocks(&format!("{}\n", set)), "");
}

#[test]
fn networksetup_argument_lists() {
    let saved = NetworkProxySettings {
        web_proxy_enabled: true,
        web_proxy_server: "10.0.0.1".to_string(),
        web_proxy_port: "3128".to_string(),
        socks_proxy_enabled: true,
        socks_proxy_server: "10.0.0.2".to_string(),
        socks_proxy_port: "1080".to_string(),
        ..Default::default()
    };
    assert_eq!(
        restore_proxy_args("Wi-Fi", &saved),
        vec![
            vec!["-setwebproxy", "Wi-Fi", "10.0.0.1", "3128"],
            vec!["-setsecurewebproxystate", "Wi-Fi", "off"],
            vec!["-setsocksfirewallproxy", "Wi-Fi", "10.0.0.2", "1080"],
        ]
    );
    assert_eq!(
        set_proxy_args("Ethernet", 7890),
        vec![
            vec!["-setwebproxy", "Ethernet", "127.0.0.1", "7890"],
            vec!["-setsecurewebproxy", "Ethernet", "127.0.0.1", "7890"],
            vec!["-setsocksfirewallproxy", "Ethernet", "127.0.0.1", "7890"],
        ]
    );
    assert_eq!(
        unset_proxy_args("Ethernet"),
        vec![
            vec!["-setwebproxystate", "Ethernet", "off"],
            vec!["-setsecurewebproxystate", "Ethernet", "off"],
            vec!["-setsocksfirewallproxystate", "Ethernet", "off"],
        ]
    );
}

#[test]
fn listing_lines_after_the_pattern() {
    let line: Vec<char> = "clash 4321 user 8u IPv4 0x1 0t0 TCP 127.0.0.1:7890 (LISTEN)".chars().collect();
    assert_eq!(
        lsof_hit_from_match(&line, Some("7890".to_string())),
        Some(("Clash".to_string(), 7890, Some(4321)))
    );
    assert_eq!(lsof_hit_from_match(&line, None), None);
    assert_eq!(lsof_hit_from_match(&line, Some("0".to_string())), None);
    let plain = "clash.exe, 1234, console\nv2ray.exe, 99, console\n";
    assert_eq!(
        netstat_hit_from_match(plain, Some("1080".to_string()), Some("99".to_string())),
        Some(("V2Ray".to_string(), 1080, Some(99)))
    );
    assert_eq!(netstat_hit_from_match(plain, None, Some("99".to_string())), None);
    let ps = "user 1 0.0 /usr/bin/clash -d .\n";
    assert_eq!(
        ss_hit_from_match(ps, Some("m".to_string()), Some("7891".to_string()), None, None),
        Some(("Clash".to_string(), 7891, None))
    );
    assert_eq!(
        ss_hit_from_match(ps, None, None, Some("m".to_string()), Some("7892".to_string())),
        Some(("Clash".to_string(), 7892, None))
    );
    assert_eq!(ss_hit_from_match(ps, None, None, None, None), None);
}

#[test]
fn proxy_test_status_read() {
    let ok = http_test_outcome(7890, 204, 35);
    assert!(ok.success);
    assert_eq!(ok.latency_ms, Some(35));
    assert_eq!(ok.error, None);
    let redirect = http_test_outcome(7890, 399, 1);
    assert!(redirect.success);
    let bad = http_test_outcome(7890, 407, 12);
    assert!(!bad.success);
    assert_eq!(bad.latency_ms, None);
    assert_eq!(bad.error.as_deref(), Some("[7890] HTTP 407"));
    assert!(!http_test_outcome(1080, 199, 0).success);
}
