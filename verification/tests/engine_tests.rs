use std::hash::{Hash, Hasher};
use xnetify::engine::{hash_pin, query_category, FilterEngine};
use xnetify::models::{
    default_blocked_categories, default_recommended_sites, default_url_rules, FilterConfig,
    LocalClock, Mode, RecommendedSite, TimeRule, TimeSlot, UrlRule, UsageRecord,
};

fn clock(weekday: u8, hour: u32, minute: u32, date: &str) -> LocalClock {
    LocalClock { weekday, seconds: hour * 3600 + minute * 60, nanos: 0, date: date.to_string() }
}

fn teen_with_rules(rules: Vec<UrlRule>) -> FilterEngine {
    FilterEngine::new(FilterConfig { mode: Mode::Teen, url_rules: rules, ..Default::default() })
}

#[test]
fn test_parent_mode_always_allowed() {
    let engine = FilterEngine::new(FilterConfig { mode: Mode::Parent, ..Default::default() });

    let (allowed, _) = engine.check_access("pornhub.com", "https://pornhub.com");
    assert!(allowed);
}

#[test]
fn test_blocked_domain() {
    let engine = FilterEngine::new(FilterConfig {
        mode: Mode::Teen,
        url_rules: vec![UrlRule {
            id: "1".to_string(),
            name: "Block porn".to_string(),
            pattern: "pornhub".to_string(),
            ..Default::default()
        }],
        ..Default::default()
    });

    let (allowed, reason) = engine.check_access("pornhub.com", "https://pornhub.com");
    assert!(!allowed);
    assert!(reason.is_some());
}

#[test]
fn test_wildcard_pattern() {
    let engine = FilterEngine::new(FilterConfig {
        mode: Mode::Teen,
        url_rules: vec![UrlRule {
            id: "1".to_string(),
            name: "Block all *.example.com".to_string(),
            pattern: "*.example.com".to_string(),
            ..Default::default()
        }],
        ..Default::default()
    });

    let (allowed, _) = engine.check_access("sub.example.com", "https://sub.example.com");
    assert!(!allowed);
}

#[test]
fn blocked_reason_is_rule_name() {
    let engine = teen_with_rules(vec![UrlRule {
        name: "Block porn".to_string(),
        pattern: "pornhub".to_string(),
        ..Default::default()
    }]);
    let (allowed, reason) = engine.check_access("pornhub.com", "https://pornhub.com");
    assert!(!allowed);
    assert_eq!(reason.as_deref(), Some("Block porn"));
}

#[test]
fn parent_mode_ignores_rules_and_categories() {
    let mut config = FilterConfig::default();
    config.mode = Mode::Parent;
    config.url_rules.push(UrlRule { name: "all".to_string(), pattern: "bet".to_string(), ..Default::default() });
    let engine = FilterEngine::new(config);
    assert_eq!(engine.check_access("bet365.com", "https://bet365.com"), (true, None));
    assert_eq!(engine.check_dns("pornhub.com"), (true, None));
    assert_eq!(engine.check_sni("xvideos.com"), (true, None));
}

#[test]
fn pattern_kinds_match_as_documented() {
    let cases: Vec<(&str, &str, bool)> = vec![
        ("*.example.com", "a.example.com", true),
        ("*.example.com", "example.com", true),
        ("*.example.com", "example.org", false),
        ("*tube*", "www.youtube.com", true),
        ("*.org", "wikipedia.org", true),
        ("*org", "wikipedia.org", true),
        ("news*", "news.example.com", true),
        ("news*", "mynews.com", false),
        ("gamble", "www.gamble.net", true),
        ("", "anything.com", false),
    ];
    for (pattern, domain, expected) in cases {
        let rule = UrlRule { pattern: pattern.to_string(), ..Default::default() };
        assert_eq!(rule.matches(domain), expected, "{} on {}", pattern, domain);
    }
    let disabled = UrlRule { pattern: "example".to_string(), enabled: false, ..Default::default() };
    assert!(!disabled.matches("example.com"));
}

#[test]
fn rule_pattern_in_url_blocks() {
    let engine = teen_with_rules(vec![UrlRule {
        name: "path".to_string(),
        pattern: "/casino".to_string(),
        ..Default::default()
    }]);
    let (allowed, reason) = engine.check_access("safe.com", "https://safe.com/casino/1");
    assert!(!allowed);
    assert_eq!(reason.as_deref(), Some("path"));
    assert_eq!(engine.check_access("safe.com", "https://safe.com/home"), (true, None));
}

#[test]
fn first_blocking_rule_names_the_refusal() {
    let engine = teen_with_rules(vec![
        UrlRule { name: "off".to_string(), pattern: "site".to_string(), enabled: false, ..Default::default() },
        UrlRule { name: "first".to_string(), pattern: "site".to_string(), ..Default::default() },
        UrlRule { name: "second".to_string(), pattern: "site.com".to_string(), ..Default::default() },
    ]);
    let (allowed, reason) = engine.check_access("site.com", "https://site.com");
    assert!(!allowed);
    assert_eq!(reason.as_deref(), Some("first"));
}

#[test]
fn blocked_category_refuses_with_category() {
    let engine = teen_with_rules(vec![]);
    let (allowed, reason) = engine.check_access("www.pornhub.com", "https://www.pornhub.com");
    assert!(!allowed);
    assert_eq!(reason.as_deref(), Some("该类别(porn)已被禁止访问"));
    // "social" is not blocked by default.
    assert_eq!(engine.check_access("instagram.com", "https://instagram.com"), (true, None));
    assert_eq!(engine.check_dns("example.org"), (true, None));
}

#[test]
fn default_rules_block_gambling() {
    let engine = FilterEngine::new(FilterConfig::default());
    let (allowed, reason) = engine.check_access("bet365.com", "https://bet365.com");
    assert!(!allowed);
    assert_eq!(reason.as_deref(), Some("赌博网站"));
}

#[test]
fn lone_star_rule_is_refused_by_guard() {
    let engine = teen_with_rules(vec![UrlRule { name: "star".to_string(), pattern: "*".to_string(), ..Default::default() }]);
    assert_eq!(engine.check_access_guarded("a.com", "https://a.com"), None);
    let parent = FilterEngine::new(FilterConfig {
        mode: Mode::Parent,
        url_rules: vec![UrlRule { pattern: "*".to_string(), ..Default::default() }],
        ..Default::default()
    });
    assert_eq!(parent.check_access_guarded("a.com", "https://a.com"), Some((true, None)));
    let plain = teen_with_rules(vec![]);
    assert_eq!(plain.check_access_guarded("a.com", "https://a.com"), Some((true, None)));
}

#[test]
fn query_category_finds_known_names() {
    assert_eq!(query_category("www.youtube.com").as_deref(), Some("video"));
    assert_eq!(query_category("steam").as_deref(), Some("gaming"));
    assert_eq!(query_category("tube").as_deref(), Some("video"));
    assert_eq!(query_category("abc"), None);
    assert_eq!(query_category("bet365.com").as_deref(), Some("gambling"));
    assert_eq!(query_category("example.com"), None);
}

#[test]
fn time_rule_limit_refuses() {
    let rule = TimeRule {
        enabled: true,
        slots: vec![],
        max_daily_minutes: 60,
        usage_today: UsageRecord { date: "2024-01-01".to_string(), used_minutes: 60 },
    };
    let (allowed, msg) = rule.is_access_allowed_at(&clock(1, 10, 0, "2024-01-01"));
    assert!(!allowed);
    assert_eq!(msg, "今日上网时长已达上限 (60 分钟)");
}

#[test]
fn time_rule_slots_decide() {
    let rule = TimeRule {
        enabled: true,
        slots: vec![
            TimeSlot { start: "08:00".to_string(), end: "12:00".to_string(), days: vec![1, 2, 3] },
            TimeSlot { start: "22:00".to_string(), end: "02:00".to_string(), days: vec![6] },
        ],
        max_daily_minutes: 480,
        usage_today: UsageRecord::default(),
    };
    assert_eq!(rule.is_access_allowed_at(&clock(1, 9, 30, "d")), (true, String::new()));
    assert_eq!(rule.is_access_allowed_at(&clock(1, 12, 0, "d")), (true, String::new()));
    assert_eq!(rule.is_access_allowed_at(&clock(6, 1, 0, "d")), (true, String::new()));
    assert_eq!(rule.is_access_allowed_at(&clock(6, 23, 0, "d")), (true, String::new()));
    let (allowed, msg) = rule.is_access_allowed_at(&clock(1, 13, 0, "d"));
    assert!(!allowed);
    assert_eq!(msg, "当前不在允许上网时段内。允许时段: 08:00:12:00, 22:00:02:00");
    let (allowed, _) = rule.is_access_allowed_at(&clock(0, 9, 0, "d"));
    assert!(!allowed);
}

#[test]
fn time_rule_off_or_without_slots_allows() {
    let off = TimeRule { enabled: false, ..Default::default() };
    assert_eq!(off.is_access_allowed_at(&clock(0, 0, 0, "x")), (true, String::new()));
    let no_slots = TimeRule { enabled: true, ..Default::default() };
    assert_eq!(no_slots.is_access_allowed_at(&clock(3, 15, 0, "x")), (true, String::new()));
}

#[test]
fn slot_with_bad_time_never_active() {
    let slot = TimeSlot { start: "8am".to_string(), end: "12:00".to_string(), days: vec![1] };
    assert!(!slot.is_active_at(&clock(1, 9, 0, "d")));
}

#[test]
fn slot_times_read_as_hours_and_minutes() {
    let slot = TimeSlot { start: "08:30".to_string(), end: "08:31".to_string(), days: vec![2] };
    assert!(slot.is_active_at(&clock(2, 8, 30, "d")));
    assert!(slot.is_active_at(&clock(2, 8, 31, "d")));
    assert!(!slot.is_active_at(&clock(2, 8, 29, "d")));
    assert!(!slot.is_active_at(&clock(2, 8, 32, "d")));
    let bad_end = TimeSlot { start: "00:00".to_string(), end: "24:00".to_string(), days: vec![2] };
    assert!(!bad_end.is_active_at(&clock(2, 12, 0, "d")));
}

#[test]
fn usage_minutes_accumulate_per_day() {
    let mut rule = TimeRule::default();
    rule.add_usage_minutes_on("2024-01-01", 30);
    assert_eq!(rule.usage_today.date, "2024-01-01");
    assert_eq!(rule.usage_today.used_minutes, 30);
    rule.add_usage_minutes_on("2024-01-01", 15);
    assert_eq!(rule.usage_today.used_minutes, 45);
    assert_eq!(rule.remaining_minutes_on("2024-01-01"), 480 - 45);
    rule.add_usage_minutes_on("2024-01-02", 5);
    assert_eq!(rule.usage_today.used_minutes, 5);
    assert_eq!(rule.remaining_minutes_on("2024-01-03"), 480);
}

#[test]
fn remaining_minutes_never_below_zero() {
    let rule = TimeRule {
        enabled: true,
        slots: vec![],
        max_daily_minutes: 10,
        usage_today: UsageRecord { date: "d".to_string(), used_minutes: 25 },
    };
    assert_eq!(rule.remaining_minutes_on("d"), 0);
}

#[test]
fn add_usage_minutes_today() {
    let mut rule = TimeRule::default();
    assert!(rule.add_usage_minutes(20));
    assert_eq!(rule.usage_today.used_minutes, 20);
    assert!(!rule.usage_today.date.is_empty());
    assert!(rule.add_usage_minutes(5));
    assert!(rule.usage_today.used_minutes == 25 || rule.usage_today.used_minutes == 5);
}

#[test]
fn engine_state_summarises() {
    let mut config = FilterConfig::default();
    config.time_rule.max_daily_minutes = 100;
    config.time_rule.usage_today = UsageRecord { date: "2024-05-05".to_string(), used_minutes: 40 };
    let engine = FilterEngine::new(config);
    let state = engine.get_state_on("2024-05-05");
    assert_eq!(state.mode, Mode::Teen);
    assert_eq!(state.remaining_minutes, 60);
    assert!(!state.is_blocked);
    assert_eq!(state.used_minutes, 40);
    assert_eq!(state.max_minutes, 100);
    assert_eq!(state.active_rules, 2);
    let other_day = engine.get_state_on("2024-05-06");
    assert_eq!(other_day.remaining_minutes, 100);
}

#[test]
fn rules_added_and_removed() {
    let mut engine = teen_with_rules(vec![]);
    engine.add_url_rule(UrlRule { id: "a".to_string(), name: "A".to_string(), pattern: "aaa".to_string(), ..Default::default() });
    engine.add_url_rule(UrlRule { id: "b".to_string(), name: "B".to_string(), pattern: "bbb".to_string(), ..Default::default() });
    assert_eq!(engine.get_config().url_rules.len(), 2);
    let (allowed, _) = engine.check_access("aaa.com", "https://aaa.com");
    assert!(!allowed);
    engine.remove_url_rule("a");
    assert_eq!(engine.get_config().url_rules.len(), 1);
    assert_eq!(engine.get_config().url_rules[0].id, "b");
    assert_eq!(engine.check_access("aaa.com", "https://aaa.com"), (true, None));
    engine.remove_url_rule("a");
    assert_eq!(engine.get_config().url_rules.len(), 1);
}

#[test]
fn recommended_sites_managed() {
    let mut engine = FilterEngine::new(FilterConfig::default());
    assert_eq!(engine.get_recommended_sites().len(), 10);
    engine.add_recommended_site(RecommendedSite { id: "x".to_string(), title: "X".to_string(), ..Default::default() });
    assert_eq!(engine.get_recommended_sites().len(), 11);
    engine.update_recommended_site(RecommendedSite { id: "x".to_string(), title: "Y".to_string(), ..Default::default() });
    let sites = engine.get_recommended_sites();
    assert_eq!(sites[10].title, "Y");
    engine.update_recommended_site(RecommendedSite { id: "missing".to_string(), ..Default::default() });
    assert_eq!(engine.get_recommended_sites().len(), 11);
    engine.remove_recommended_site("x");
    engine.remove_recommended_site("1");
    let sites = engine.get_recommended_sites();
    assert_eq!(sites.len(), 9);
    assert_eq!(sites[0].id, "2");
}

#[test]
fn mode_and_time_rule_setters() {
    let mut engine = FilterEngine::new(FilterConfig::default());
    assert!(!engine.is_parent_mode());
    engine.set_mode(Mode::Parent);
    assert!(engine.is_parent_mode());
    let rule = TimeRule { enabled: true, max_daily_minutes: 5, ..Default::default() };
    engine.set_time_rule(rule);
    assert_eq!(engine.get_config().time_rule.max_daily_minutes, 5);
    assert_eq!(engine.get_config().mode, Mode::Parent);
}

#[test]
fn pin_set_then_checked() {
    let mut engine = FilterEngine::new(FilterConfig::default());
    assert!(!engine.has_pin());
    assert!(engine.check_pin("anything"));
    engine.set_pin("1234");
    assert!(engine.has_pin());
    assert!(engine.check_pin("1234"));
    assert!(!engine.check_pin("4321"));
    let h = hash_pin("1234");
    assert_eq!(engine.get_pin_hash().as_deref(), Some(h.as_str()));
    assert!(engine.verify_pin("1234", &h));
    assert!(!engine.verify_pin("12345", &h));
}

#[test]
fn hash_pin_matches_default_hasher() {
    let mut hasher = std::collections::hash_map::DefaultHasher::new();
    "1234".hash(&mut hasher);
    assert_eq!(hash_pin("1234"), format!("{:x}", hasher.finish()));
    assert_ne!(hash_pin("1234"), hash_pin("1235"));
}

#[test]
fn defaults_are_as_configured() {
    let rules = default_url_rules();
    assert_eq!(rules.len(), 2);
    assert_eq!(rules[0].pattern, "example-block.com");
    assert_eq!(rules[1].name, "赌博网站");
    assert_ne!(rules[0].id, "");
    assert_eq!(default_blocked_categories(), vec!["porn", "gambling", "violence", "drugs", "hate"]);
    let sites = default_recommended_sites();
    assert_eq!(sites.len(), 10);
    assert_eq!(sites[9].id, "10");
    assert_eq!(sites[9].url, "https://open.163.com");
    let config = FilterConfig::default();
    assert_eq!(config.mode, Mode::Teen);
    assert!(config.cloud_fallback);
    assert!(!config.time_rule.enabled);
    assert_eq!(config.time_rule.max_daily_minutes, 480);
}

#[test]
fn generated_ids_have_two_hex_halves() {
    let rule = UrlRule::default();
    let parts: Vec<&str> = rule.id.split('-').collect();
    assert_eq!(parts.len(), 2);
    assert!(parts.iter().all(|p| !p.is_empty() && p.chars().all(|c| c.is_ascii_hexdigit())));
}

#[test]
fn update_config_replaces() {
    let mut engine = FilterEngine::new(FilterConfig::default());
    let mut other = FilterConfig::default();
    other.mode = Mode::Parent;
    other.url_rules.clear();
    engine.update_config(other);
    assert!(engine.is_parent_mode());
    assert_eq!(engine.get_config().url_rules.len(), 0);
    let mut again = FilterConfig::default();
    again.block_categories = vec!["video".to_string()];
    engine.load_config(again);
    assert!(engine.get_config().is_blocked_category("video"));
    assert!(!engine.get_config().is_blocked_category("porn"));
}

#[test]
fn blocked_categories_form_a_set() {
    let mut config = FilterConfig::default();
    assert!(config.has_distinct_categories());
    config.block_categories = vec![];
    assert!(config.has_distinct_categories());
    config.block_categories = vec!["video".to_string(), "porn".to_string(), "video".to_string()];
    assert!(!config.has_distinct_categories());
}

#[test]
fn name_checks_agree_with_access_check() {
    let engine = teen_with_rules(vec![UrlRule {
        id: "r".to_string(),
        name: "Block video".to_string(),
        rule_type: xnetify::models::UrlRuleType::Block,
        pattern: "example.com".to_string(),
        category: None,
        enabled: true,
    }]);
    for name in ["example.com", "youtube.com", "ok.org", "pornhub.com"] {
        assert_eq!(engine.check_sni(name), engine.check_access(name, name));
        assert_eq!(engine.check_dns(name), engine.check_access(name, name));
    }
}
