use std::path::PathBuf;
use xnetify::config::{AppConfig, ConfigError, ConfigManager, CONFIG_FILE_NAME};
use xnetify::models::{FilterConfig, Mode};
use xnetify::scan::{chars_lines, chars_replace, chars_trim, chars_trim_start_matches, chars_words, str_bytes};
use xnetify::text::{
    chars_contains, chars_ends_with, chars_find, chars_split, chars_starts_with, chars_to_string, join_strings,
    parse_unsigned_chars, push_chars, push_str, str_eq, str_to_chars, string_of, u64_to_dec, u64_to_hex,
};

fn cs(s: &str) -> Vec<char> {
    s.chars().collect()
}

fn strings(v: Vec<Vec<char>>) -> Vec<String> {
    v.into_iter().map(|x| x.into_iter().collect()).collect()
}

#[test]
fn app_config_defaults() {
    let c = AppConfig::default();
    assert_eq!(c.proxy_port, 7890);
    assert_eq!(c.dns_port, 53);
    assert!(!c.tun_enabled);
    assert!(!c.auto_start);
    assert_eq!(c.filter.mode, Mode::Teen);
}

#[test]
fn config_manager_paths_and_updates() {
    let m = ConfigManager::new(PathBuf::from("/tmp/xnetify-data"));
    assert_eq!(m.config_path(), &PathBuf::from("/tmp/xnetify-data").join(CONFIG_FILE_NAME));
    assert!(m.config_path().ends_with("config.json"));
    let mut current = AppConfig::default();
    current.proxy_port = 1234;
    current.auto_start = true;
    let mut filter = FilterConfig::default();
    filter.mode = Mode::Parent;
    let updated = m.update_filter_config(current, filter);
    assert_eq!(updated.filter.mode, Mode::Parent);
    assert_eq!(updated.proxy_port, 1234);
    assert!(updated.auto_start);
    let reset = m.reset();
    assert_eq!(reset.proxy_port, 7890);
    assert_eq!(reset.filter.mode, Mode::Teen);
}

#[test]
fn config_error_messages() {
    assert_eq!(ConfigError::Io("no file".to_string()).message(), "IO error: no file");
    assert_eq!(ConfigError::Serialize("bad".to_string()).message(), "Serialization error: bad");
}

#[test]
fn string_building() {
    let mut s = string_of("ab");
    push_str(&mut s, "cd");
    push_chars(&mut s, &['é', 'f']);
    assert_eq!(s, "abcdéf");
    assert_eq!(str_to_chars("hé"), vec!['h', 'é']);
    assert_eq!(chars_to_string(&['x', '✓']), "x✓");
    assert!(str_eq("abc", "abc"));
    assert!(!str_eq("abc", "abd"));
    assert_eq!(join_strings(&vec!["a".to_string(), "b".to_string(), "c".to_string()], ", "), "a, b, c");
    assert_eq!(join_strings(&vec![], ", "), "");
}

#[test]
fn substring_search() {
    assert!(chars_starts_with(&cs("hello"), &cs("he")));
    assert!(!chars_starts_with(&cs("he"), &cs("hello")));
    assert!(chars_ends_with(&cs("hello"), &cs("llo")));
    assert_eq!(chars_find(&cs("abcabc"), &cs("ca")), Some(2));
    assert_eq!(chars_find(&cs("abc"), &cs("x")), None);
    assert_eq!(chars_find(&cs("abc"), &cs("")), Some(0));
    assert!(chars_contains(&cs("www.example.com"), &cs("example")));
}

#[test]
fn numbers_rendered_and_read() {
    assert_eq!(u64_to_dec(0), "0");
    assert_eq!(u64_to_dec(18446744073709551615), "18446744073709551615");
    assert_eq!(u64_to_hex(255), "ff");
    assert_eq!(u64_to_hex(0), "0");
    assert_eq!(parse_unsigned_chars(&cs("65535"), 65535), Some(65535));
    assert_eq!(parse_unsigned_chars(&cs("65536"), 65535), None);
    assert_eq!(parse_unsigned_chars(&cs("+7"), 65535), Some(7));
    assert_eq!(parse_unsigned_chars(&cs("007"), 255), Some(7));
    assert_eq!(parse_unsigned_chars(&cs(""), 255), None);
    assert_eq!(parse_unsigned_chars(&cs("1a"), 255), None);
    assert_eq!(parse_unsigned_chars(&cs(" 1"), 255), None);
}

#[test]
fn splitting_and_trimming() {
    assert_eq!(strings(chars_split(&cs("a.b..c"), '.')), vec!["a", "b", "", "c"]);
    assert_eq!(strings(chars_split(&cs(""), '.')), vec![""]);
    assert_eq!(strings(chars_lines(&cs("a\r\nb\n\nc"))), vec!["a", "b", "", "c"]);
    assert_eq!(strings(chars_lines(&cs("a\n"))), vec!["a"]);
    assert_eq!(strings(chars_lines(&cs(""))), Vec::<String>::new());
    assert_eq!(chars_to_string(&chars_trim(&cs(" \t x y \n"))), "x y");
    assert_eq!(strings(chars_words(&cs("  GET  /  HTTP/1.1 "))), vec!["GET", "/", "HTTP/1.1"]);
    assert_eq!(chars_to_string(&chars_trim_start_matches(&cs("abababc"), &cs("ab"))), "c");
    assert_eq!(chars_to_string(&chars_replace(&cs("aXbXc"), &cs("X"), &cs("--"))), "a--b--c");
    assert_eq!(chars_to_string(&chars_replace(&cs("aaa"), &cs("aa"), &cs("b"))), "ba");
    assert_eq!(str_bytes("é"), vec![0xC3, 0xA9]);
}
