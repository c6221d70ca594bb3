//! The filtering model: modes, time rules, URL rules, recommended sites and
//! the filter configuration that ties them together.
use vstd::prelude::*;
use crate::text::{
    chars_contains, chars_ends_with, chars_eq, chars_starts_with, contains_seq, dec, ends_with, hex, join,
    join_strings, push_str, starts_with, str_eq, str_to_chars, string_of, sub_chars, u64_to_dec,
    u64_to_hex,
};
use chrono::{Datelike, Timelike};

verus! {

broadcast use vstd::string::group_string_axioms;

// ---------------------------------------------------------------------------
// Clock
// ---------------------------------------------------------------------------

/// One reading of the local wall clock, as the time rules read it.
pub struct LocalClock {
    /// Day of the week, Sunday = 0 ... Saturday = 6.
    pub weekday: u8,
    /// Seconds since local midnight.
    pub seconds: u32,
    /// Fraction of the current second, in nanoseconds (above 10^9 during a
    /// leap second).
    pub nanos: u32,
    /// The local date, `YYYY-MM-DD`.
    pub date: String,
}

pub open spec fn clock_valid(c: LocalClock) -> bool {
    c.weekday < 7 && c.seconds < 86400 && c.nanos < 2_000_000_000
}

/// Reads `chrono::Local::now()` and takes it apart into weekday, seconds
/// since midnight, fraction and `%Y-%m-%d` date. The reading depends on the
/// time, so only the ranges of the fields are claimed.
#[verifier::external_body]
pub(crate) fn local_now() -> (c: LocalClock)
    ensures
        clock_valid(c),
{
    let now = chrono::Local::now();
    LocalClock {
        weekday: now.weekday().num_days_from_sunday() as u8,
        seconds: now.num_seconds_from_midnight(),
        nanos: now.nanosecond(),
        date: now.format("%Y-%m-%d").to_string(),
    }
}

/// What `chrono::NaiveTime::parse_from_str(s, "%H:%M")` yields, as (seconds
/// since midnight, nanosecond fraction), or `None` where it fails.
pub uninterp spec fn naive_time_hm(s: Seq<char>) -> Option<(u32, u32)>;

/// Calls `chrono::NaiveTime::parse_from_str(s, "%H:%M")`. Claims that the
/// result is the named value `naive_time_hm(s)`, and that a parsed time lies
/// within a day (a `NaiveTime` always does).
#[verifier::external_body]
pub(crate) fn parse_time_hm(s: &str) -> (r: Option<(u32, u32)>)
    ensures
        r == naive_time_hm(s@),
        r matches Some(t) ==> t.0 < 86400 && t.1 < 2_000_000_000,
{
    match chrono::NaiveTime::parse_from_str(s, "%H:%M") {
        Ok(t) => Some((t.num_seconds_from_midnight(), t.nanosecond())),
        Err(_) => None,
    }
}

/// `a <= b` on (seconds, fraction) times of day.
pub open spec fn time_le(a: (u32, u32), b: (u32, u32)) -> bool {
    a.0 < b.0 || (a.0 == b.0 && a.1 <= b.1)
}

/// Nanoseconds since the Unix epoch by `std::time::SystemTime::now()`
/// (`duration_since(UNIX_EPOCH)`), or 0 when the clock reads before the
/// epoch. The reading depends on the time: nothing is claimed of it.
#[verifier::external_body]
pub(crate) fn unix_time_nanos() -> (r: u128) {
    std::time::SystemTime::now().duration_since(std::time::UNIX_EPOCH).map(|d| d.as_nanos()).unwrap_or(
        0,
    )
}

/// The identifier made from the clock reading `n`: the high and low 64 bits
/// in hexadecimal, joined by `-`.
pub open spec fn uuid_of(n: u128) -> Seq<char> {
    hex((n / 0x1_0000_0000_0000_0000u128) as nat) + "-"@ + hex((n % 0x1_0000_0000_0000_0000u128) as nat)
}

pub open spec fn is_uuid(s: Seq<char>) -> bool {
    exists|n: u128| s == #[trigger] uuid_of(n)
}

/// An identifier built from the current time.
pub fn uuid_v4() -> (r: String)
    ensures
        is_uuid(r@),
{
    let now = unix_time_nanos();
    let hi = (now >> 64u32) as u64;
    let lo = now as u64;
    assert(hi == now / 0x1_0000_0000_0000_0000u128) by (bit_vector)
        requires
            hi == (now >> 64u32) as u64,
    ;
    assert(lo == now % 0x1_0000_0000_0000_0000u128) by (bit_vector)
        requires
            lo == now as u64,
    ;
    let mut s = u64_to_hex(hi);
    push_str(&mut s, "-");
    let l = u64_to_hex(lo);
    push_str(&mut s, l.as_str());
    assert(s@ == uuid_of(now));
    s
}

fn time_le_exec(a: (u32, u32), b: (u32, u32)) -> (r: bool)
    ensures
        r == time_le(a, b),
{
    a.0 < b.0 || (a.0 == b.0 && a.1 <= b.1)
}

// ---------------------------------------------------------------------------
// Mode
// ---------------------------------------------------------------------------

#[derive(Debug, Clone, Copy, PartialEq, Eq, Structural)]
pub enum Mode {
    Parent,
    Teen,
}

impl Default for Mode {
    fn default() -> (r: Self)
        ensures
            r == Mode::Parent,
    {
        Mode::Parent
    }
}

// ---------------------------------------------------------------------------
// Time rules
// ---------------------------------------------------------------------------

#[derive(Debug, Clone)]
pub struct TimeSlot {
    pub start: String,
    pub end: String,
    pub days: Vec<u8>,
}

#[derive(Debug, Clone)]
pub struct UsageRecord {
    pub date: String,
    pub used_minutes: u32,
}

impl Default for UsageRecord {
    fn default() -> (r: Self)
        ensures
            r.date@ == Seq::<char>::empty(),
            r.used_minutes == 0,
    {
        UsageRecord { date: String::new(), used_minutes: 0 }
    }
}

#[derive(Debug, Clone)]
pub struct TimeRule {
    pub enabled: bool,
    pub slots: Vec<TimeSlot>,
    pub max_daily_minutes: u32,
    pub usage_today: UsageRecord,
}

impl Default for TimeRule {
    fn default() -> (r: Self)
        ensures
            !r.enabled,
            r.slots@.len() == 0,
            r.max_daily_minutes == 480,
            r.usage_today.date@ == Seq::<char>::empty(),
            r.usage_today.used_minutes == 0,
    {
        TimeRule {
            enabled: false,
            slots: Vec::new(),
            max_daily_minutes: 480,
            usage_today: UsageRecord::default(),
        }
    }
}

/// The slot admits the moment `c`: the weekday is one of its days, both ends
/// parse as `HH:MM`, and the time of day lies in `[start, end]`, a range that
/// wraps past midnight when `start > end`.
pub open spec fn slot_active_at(slot: TimeSlot, c: LocalClock) -> bool {
    &&& slot.days@.contains(c.weekday)
    &&& match (naive_time_hm(slot.start@), naive_time_hm(slot.end@)) {
        (Some(s), Some(e)) => {
            let t = (c.seconds, c.nanos);
            if time_le(s, e) {
                time_le(s, t) && time_le(t, e)
            } else {
                time_le(s, t) || time_le(t, e)
            }
        },
        _ => false,
    }
}

fn bytes_contain(v: &Vec<u8>, x: u8) -> (r: bool)
    ensures
        r == v@.contains(x),
{
    let mut i: usize = 0;
    while i < v.len()
        invariant
            0 <= i <= v@.len(),
            forall|j: int| 0 <= j < i ==> v@[j] != x,
        decreases v@.len() - i,
    {
        if v[i] == x {
            assert(v@[i as int] == x);
            return true;
        }
        i = i + 1;
    }
    false
}

impl TimeSlot {
    /// Whether this slot admits the clock reading `clock`.
    pub fn is_active_at(&self, clock: &LocalClock) -> (r: bool)
        ensures
            r == slot_active_at(*self, *clock),
    {
        if !bytes_contain(&self.days, clock.weekday) {
            return false;
        }
        let start = parse_time_hm(self.start.as_str());
        let end = parse_time_hm(self.end.as_str());
        match (start, end) {
            (Some(s), Some(e)) => {
                let t = (clock.seconds, clock.nanos);
                if time_le_exec(s, e) {
                    time_le_exec(s, t) && time_le_exec(t, e)
                } else {
                    time_le_exec(s, t) || time_le_exec(t, e)
                }
            },
            _ => false,
        }
    }

    /// Whether this slot admits the current local time.
    pub fn is_active_now(&self) -> (r: bool)
        ensures
            exists|c: LocalClock| clock_valid(c) && r == #[trigger] slot_active_at(*self, c),
    {
        let clock = local_now();
        self.is_active_at(&clock)
    }
}

/// The refusal given once the daily allowance is used up.
pub open spec fn limit_message(max: u32) -> Seq<char> {
    "今日上网时长已达上限 ("@ + dec(max as nat) + " 分钟)"@
}

/// `start:end` of a slot, as listed in the refusal outside the slots.
pub open spec fn slot_label(s: TimeSlot) -> Seq<char> {
    s.start@ + ":"@ + s.end@
}

/// The refusal given outside every allowed slot.
pub open spec fn slots_message(slots: Seq<TimeSlot>) -> Seq<char> {
    "当前不在允许上网时段内。允许时段: "@ + join(slots.map_values(|s: TimeSlot| slot_label(s)), ", "@)
}

pub open spec fn any_slot_active(slots: Seq<TimeSlot>, c: LocalClock) -> bool {
    exists|i: int| 0 <= i < slots.len() && #[trigger] slot_active_at(slots[i], c)
}

/// The verdict of a time rule at the moment `c`: allowed when the rule is
/// off; refused once the used minutes reach the daily maximum (whatever the
/// stored date); otherwise allowed in an active slot or when no slot is
/// defined, and refused with the list of slots outside them.
pub open spec fn access_at(rule: TimeRule, c: LocalClock) -> (bool, Seq<char>) {
    if !rule.enabled {
        (true, Seq::empty())
    } else if rule.usage_today.used_minutes >= rule.max_daily_minutes {
        (false, limit_message(rule.max_daily_minutes))
    } else if any_slot_active(rule.slots@, c) {
        (true, Seq::empty())
    } else if rule.slots@.len() == 0 {
        (true, Seq::empty())
    } else {
        (false, slots_message(rule.slots@))
    }
}

/// The minutes left today, given today's date.
pub open spec fn remaining_on(rule: TimeRule, today: Seq<char>) -> u32 {
    if rule.usage_today.date@ != today {
        rule.max_daily_minutes
    } else if rule.usage_today.used_minutes >= rule.max_daily_minutes {
        0
    } else {
        (rule.max_daily_minutes - rule.usage_today.used_minutes) as u32
    }
}

impl TimeRule {
    /// The verdict of this rule at the clock reading `clock`.
    pub fn is_access_allowed_at(&self, clock: &LocalClock) -> (r: (bool, String))
        ensures
            (r.0, r.1@) == access_at(*self, *clock),
    {
        if !self.enabled {
            return (true, String::new());
        }
        if self.usage_today.used_minutes >= self.max_daily_minutes {
            let mut msg = string_of("今日上网时长已达上限 (");
            let n = u64_to_dec(self.max_daily_minutes as u64);
            push_str(&mut msg, n.as_str());
            push_str(&mut msg, " 分钟)");
            return (false, msg);
        }
        let mut i: usize = 0;
        while i < self.slots.len()
            invariant
                self.enabled,
                self.usage_today.used_minutes < self.max_daily_minutes,
                0 <= i <= self.slots@.len(),
                forall|j: int| 0 <= j < i ==> !slot_active_at(self.slots@[j], *clock),
            decreases self.slots@.len() - i,
        {
            if self.slots[i].is_active_at(clock) {
                assert(slot_active_at(self.slots@[i as int], *clock));
                return (true, String::new());
            }
            i = i + 1;
        }
        if self.slots.len() == 0 {
            return (true, String::new());
        }
        let mut labels: Vec<String> = Vec::new();
        let mut k: usize = 0;
        while k < self.slots.len()
            invariant
                0 <= k <= self.slots@.len(),
                labels@.len() == k,
                forall|j: int| 0 <= j < k ==> (#[trigger] labels@[j])@ == slot_label(self.slots@[j]),
            decreases self.slots@.len() - k,
        {
            let mut label = string_of(self.slots[k].start.as_str());
            push_str(&mut label, ":");
            push_str(&mut label, self.slots[k].end.as_str());
            labels.push(label);
            k = k + 1;
        }
        let joined = join_strings(&labels, ", ");
        assert(labels@.map_values(|p: String| p@) =~= self.slots@.map_values(
            |s: TimeSlot| slot_label(s),
        ));
        let mut msg = string_of("当前不在允许上网时段内。允许时段: ");
        push_str(&mut msg, joined.as_str());
        (false, msg)
    }

    /// The verdict of this rule at the current local time.
    pub fn is_access_allowed(&self) -> (r: (bool, String))
        ensures
            exists|c: LocalClock| clock_valid(c) && (r.0, r.1@) == #[trigger] access_at(*self, c),
    {
        let clock = local_now();
        self.is_access_allowed_at(&clock)
    }

    /// Adds `minutes` of use on the date `today`: a different stored date
    /// starts a fresh record for `today`.
    pub fn add_usage_minutes_on(&mut self, today: &str, minutes: u32)
        requires
            old(self).usage_today.date@ == today@ ==> old(self).usage_today.used_minutes + minutes
                <= u32::MAX,
        ensures
            final(self).enabled == old(self).enabled,
            final(self).slots == old(self).slots,
            final(self).max_daily_minutes == old(self).max_daily_minutes,
            final(self).usage_today.date@ == today@,
            old(self).usage_today.date@ != today@ ==> final(self).usage_today.used_minutes == minutes,
            old(self).usage_today.date@ == today@ ==> final(self).usage_today.used_minutes
                == old(self).usage_today.used_minutes + minutes,
    {
        if !str_eq(self.usage_today.date.as_str(), today) {
            self.usage_today = UsageRecord { date: string_of(today), used_minutes: minutes };
        } else {
            self.usage_today.used_minutes = self.usage_today.used_minutes + minutes;
        }
    }

    /// Adds `minutes` of use today. Where today's total would pass `u32::MAX`
    /// the record is left as it is and `false` comes back.
    pub fn add_usage_minutes(&mut self, minutes: u32) -> (added: bool)
        ensures
            final(self).enabled == old(self).enabled,
            final(self).slots == old(self).slots,
            final(self).max_daily_minutes == old(self).max_daily_minutes,
            !added ==> *final(self) == *old(self),
            !added ==> old(self).usage_today.used_minutes + minutes > u32::MAX,
            added && old(self).usage_today.date@ != final(self).usage_today.date@
                ==> final(self).usage_today.used_minutes == minutes,
            added && old(self).usage_today.date@ == final(self).usage_today.date@
                ==> final(self).usage_today.used_minutes == old(self).usage_today.used_minutes
                + minutes,
    {
        let clock = local_now();
        let same_day = str_eq(self.usage_today.date.as_str(), clock.date.as_str());
        if same_day && minutes > u32::MAX - self.usage_today.used_minutes {
            return false;
        }
        self.add_usage_minutes_on(clock.date.as_str(), minutes);
        assert(final(self).usage_today.date@ == clock.date@);
        true
    }

    /// The minutes left on the date `today`.
    pub fn remaining_minutes_on(&self, today: &str) -> (r: u32)
        ensures
            r == remaining_on(*self, today@),
    {
        if !str_eq(self.usage_today.date.as_str(), today) {
            self.max_daily_minutes
        } else if self.usage_today.used_minutes >= self.max_daily_minutes {
            0
        } else {
            self.max_daily_minutes - self.usage_today.used_minutes
        }
    }

    /// The minutes left today.
    pub fn remaining_minutes(&self) -> (r: u32)
        ensures
            exists|today: Seq<char>| r == #[trigger] remaining_on(*self, today),
    {
        let clock = local_now();
        self.remaining_minutes_on(clock.date.as_str())
    }
}

// ---------------------------------------------------------------------------
// URL rules
// ---------------------------------------------------------------------------

#[derive(Debug, Clone, Copy, PartialEq, Eq, Structural)]
pub enum UrlRuleType {
    Block,
    Allow,
}

#[derive(Debug, Clone)]
pub struct UrlRule {
    pub id: String,
    pub name: String,
    pub rule_type: UrlRuleType,
    pub pattern: String,
    pub category: Option<String>,
    pub enabled: bool,
}

impl Default for UrlRule {
    fn default() -> (r: Self)
        ensures
            is_uuid(r.id@),
            r.name@ == Seq::<char>::empty(),
            r.rule_type == UrlRuleType::Block,
            r.pattern@ == Seq::<char>::empty(),
            r.category is None,
            r.enabled,
    {
        UrlRule {
            id: uuid_v4(),
            name: String::new(),
            rule_type: UrlRuleType::Block,
            pattern: String::new(),
            category: None,
            enabled: true,
        }
    }
}

/// Whether the pattern of a rule matches a domain:
/// - `*.suffix` matches a domain that ends with `suffix`;
/// - `*middle*` matches a domain that contains `middle`;
/// - `*suffix` matches a domain that ends with `suffix`;
/// - `prefix*` matches a domain that starts with `prefix`;
/// - any other non-empty pattern matches a domain that contains it.
/// The empty pattern matches nothing.
pub open spec fn pattern_matches(pattern: Seq<char>, domain: Seq<char>) -> bool {
    if pattern.len() == 0 {
        false
    } else if starts_with(pattern, seq!['*', '.']) {
        let suffix = pattern.skip(2);
        ends_with(domain, suffix) || domain == suffix
    } else if pattern[0] == '*' && pattern.last() == '*' {
        contains_seq(domain, pattern.subrange(1, pattern.len() - 1))
    } else if pattern[0] == '*' {
        ends_with(domain, pattern.skip(1))
    } else if pattern.last() == '*' {
        starts_with(domain, pattern.take(pattern.len() - 1))
    } else {
        contains_seq(domain, pattern)
    }
}

/// The pattern `*` alone: matching it slices out of bounds.
pub open spec fn lone_star(pattern: Seq<char>) -> bool {
    pattern == seq!['*']
}

pub open spec fn rule_matches(rule: UrlRule, domain: Seq<char>) -> bool {
    rule.enabled && pattern_matches(rule.pattern@, domain)
}

fn matches_chars(pattern: &Vec<char>, domain: &Vec<char>) -> (r: bool)
    requires
        !lone_star(pattern@),
    ensures
        r == pattern_matches(pattern@, domain@),
{
    let n = pattern.len();
    if n == 0 {
        return false;
    }
    let star_dot = vec!['*', '.'];
    if chars_starts_with(pattern.as_slice(), star_dot.as_slice()) {
        assert(star_dot@ == seq!['*', '.']);
        let suffix = sub_chars(pattern.as_slice(), 2, n);
        assert(suffix@ == pattern@.skip(2));
        return chars_ends_with(domain.as_slice(), suffix.as_slice()) || chars_eq(
            domain.as_slice(),
            suffix.as_slice(),
        );
    }
    assert(star_dot@ == seq!['*', '.']);
    if pattern[0] == '*' && pattern[n - 1] == '*' {
        assert(n >= 2) by {
            if n == 1 {
                assert(pattern@ =~= seq!['*']);
            }
        }
        let middle = sub_chars(pattern.as_slice(), 1, n - 1);
        chars_contains(domain.as_slice(), middle.as_slice())
    } else if pattern[0] == '*' {
        let suffix = sub_chars(pattern.as_slice(), 1, n);
        assert(suffix@ == pattern@.skip(1));
        chars_ends_with(domain.as_slice(), suffix.as_slice())
    } else if pattern[n - 1] == '*' {
        let prefix = sub_chars(pattern.as_slice(), 0, n - 1);
        assert(prefix@ == pattern@.take(n - 1));
        chars_starts_with(domain.as_slice(), prefix.as_slice())
    } else {
        chars_contains(domain.as_slice(), pattern.as_slice())
    }
}

impl UrlRule {
    /// Whether this rule is enabled and its pattern matches `domain`.
    pub fn matches(&self, domain: &str) -> (r: bool)
        requires
            !(self.enabled && lone_star(self.pattern@)),
        ensures
            r == rule_matches(*self, domain@),
    {
        if !self.enabled {
            return false;
        }
        let p = str_to_chars(self.pattern.as_str());
        let d = str_to_chars(domain);
        matches_chars(&p, &d)
    }
}

// ---------------------------------------------------------------------------
// Recommended sites
// ---------------------------------------------------------------------------

#[derive(Debug, Clone)]
pub struct RecommendedSite {
    pub id: String,
    pub title: String,
    pub description: String,
    pub url: String,
    pub icon: String,
    pub category: String,
    pub enabled: bool,
}

impl Default for RecommendedSite {
    fn default() -> (r: Self)
        ensures
            is_uuid(r.id@),
            r.title@ == Seq::<char>::empty(),
            r.description@ == Seq::<char>::empty(),
            r.url@ == Seq::<char>::empty(),
            r.icon@ == Seq::<char>::empty(),
            r.category@ == Seq::<char>::empty(),
            r.enabled,
    {
        RecommendedSite {
            id: uuid_v4(),
            title: String::new(),
            description: String::new(),
            url: String::new(),
            icon: String::new(),
            category: String::new(),
            enabled: true,
        }
    }
}

/// The text fields of a site: id, title, description, url, icon, category.
pub open spec fn site_text(s: RecommendedSite) -> (
    Seq<char>,
    Seq<char>,
    Seq<char>,
    Seq<char>,
    Seq<char>,
    Seq<char>,
) {
    (s.id@, s.title@, s.description@, s.url@, s.icon@, s.category@)
}

/// The ten sites recommended out of the box, in order.
pub open spec fn default_sites_text() -> Seq<
    (Seq<char>, Seq<char>, Seq<char>, Seq<char>, Seq<char>, Seq<char>),
> {
    seq![
        ("1"@, "国家地理"@, "探索世界，增长见识"@, "https://www.nationalgeographic.com.cn"@, "🌍"@, "科普探索"@),
        ("2"@, "动物世界"@, "了解神奇的动物王国"@, "https://www.zoo.cn"@, "🦁"@, "科普探索"@),
        ("3"@, "中国数字科技馆"@, "趣味科普，启迪智慧"@, "https://www.cdstm.cn"@, "🔬"@, "科普探索"@),
        ("4"@, " Scratch"@, "用积木学编程"@, "https://scratch.mit.edu"@, "💻"@, "编程学习"@),
        ("5"@, "编程猫"@, "青少年编程学习平台"@, "https://codecat.cn"@, "🐱"@, "编程学习"@),
        ("6"@, "故宫博物馆"@, "探索中华文化瑰宝"@, "https://www.dpm.org.cn"@, "🏛️"@, "艺术文化"@),
        ("7"@, "Bilibili 学习"@, "海量优质学习视频"@, "https://www.bilibili.com"@, "📺"@, "艺术文化"@),
        ("8"@, " WWF中国"@, "保护地球生物多样性"@, "https://www.wwfchina.org"@, "🌿"@, "自然生态"@),
        ("9"@, "中国科普博览"@, "走进科学的殿堂"@, "https://www.kepu.cn"@, "📚"@, "科普探索"@),
        ("10"@, "网易公开课"@, "世界名校精品课程"@, "https://open.163.com"@, "🎓"@, "科普探索"@)
    ]
}

fn make_site(
    id: &str,
    title: &str,
    description: &str,
    url: &str,
    icon: &str,
    category: &str,
) -> (r: RecommendedSite)
    ensures
        site_text(r) == (id@, title@, description@, url@, icon@, category@),
        r.enabled,
{
    RecommendedSite {
        id: string_of(id),
        title: string_of(title),
        description: string_of(description),
        url: string_of(url),
        icon: string_of(icon),
        category: string_of(category),
        enabled: true,
    }
}

/// The sites recommended out of the box, all enabled.
pub fn default_recommended_sites() -> (r: Vec<RecommendedSite>)
    ensures
        r@.map_values(|s: RecommendedSite| site_text(s)) == default_sites_text(),
        forall|i: int| 0 <= i < r@.len() ==> (#[trigger] r@[i]).enabled,
{
    let mut v: Vec<RecommendedSite> = Vec::new();
    v.push(make_site("1", "国家地理", "探索世界，增长见识", "https://www.nationalgeographic.com.cn", "🌍", "科普探索"));
    v.push(make_site("2", "动物世界", "了解神奇的动物王国", "https://www.zoo.cn", "🦁", "科普探索"));
    v.push(make_site("3", "中国数字科技馆", "趣味科普，启迪智慧", "https://www.cdstm.cn", "🔬", "科普探索"));
    v.push(make_site("4", " Scratch", "用积木学编程", "https://scratch.mit.edu", "💻", "编程学习"));
    v.push(make_site("5", "编程猫", "青少年编程学习平台", "https://codecat.cn", "🐱", "编程学习"));
    v.push(make_site("6", "故宫博物馆", "探索中华文化瑰宝", "https://www.dpm.org.cn", "🏛️", "艺术文化"));
    v.push(make_site("7", "Bilibili 学习", "海量优质学习视频", "https://www.bilibili.com", "📺", "艺术文化"));
    v.push(make_site("8", " WWF中国", "保护地球生物多样性", "https://www.wwfchina.org", "🌿", "自然生态"));
    v.push(make_site("9", "中国科普博览", "走进科学的殿堂", "https://www.kepu.cn", "📚", "科普探索"));
    v.push(make_site("10", "网易公开课", "世界名校精品课程", "https://open.163.com", "🎓", "科普探索"));
    assert(v@.map_values(|s: RecommendedSite| site_text(s)) =~= default_sites_text());
    v
}

// ---------------------------------------------------------------------------
// Filter configuration
// ---------------------------------------------------------------------------

#[derive(Debug, Clone)]
pub struct FilterConfig {
    pub mode: Mode,
    pub time_rule: TimeRule,
    pub url_rules: Vec<UrlRule>,
    pub recommended_sites: Vec<RecommendedSite>,
    /// The blocked categories; only membership matters.
    pub block_categories: Vec<String>,
    pub cloud_fallback: bool,
}

/// No category occurs twice: the categories form a set.
pub open spec fn categories_distinct(cats: Seq<String>) -> bool {
    forall|i: int, j: int| 0 <= i < j < cats.len() ==> (#[trigger] cats[i])@ != (#[trigger] cats[j])@
}

impl FilterConfig {
    /// A configuration whose blocked categories form a set.
    pub open spec fn wf(&self) -> bool {
        categories_distinct(self.block_categories@)
    }
}

pub open spec fn opt_view(o: Option<String>) -> Option<Seq<char>> {
    match o {
        Some(s) => Some(s@),
        None => None,
    }
}

/// The name, pattern and category of a rule.
pub open spec fn rule_text(r: UrlRule) -> (Seq<char>, Seq<char>, Option<Seq<char>>) {
    (r.name@, r.pattern@, opt_view(r.category))
}

/// The rules configured out of the box, in order.
pub open spec fn default_rules_text() -> Seq<(Seq<char>, Seq<char>, Option<Seq<char>>)> {
    seq![
        ("示例阻止规则"@, "example-block.com"@, Some("测试"@)),
        ("赌博网站"@, "bet365"@, Some("赌博"@)),
    ]
}

fn make_rule(name: &str, pattern: &str, category: &str) -> (r: UrlRule)
    ensures
        rule_text(r) == (name@, pattern@, Some(category@)),
        is_uuid(r.id@),
        r.rule_type == UrlRuleType::Block,
        r.enabled,
{
    UrlRule {
        id: uuid_v4(),
        name: string_of(name),
        rule_type: UrlRuleType::Block,
        pattern: string_of(pattern),
        category: Some(string_of(category)),
        enabled: true,
    }
}

/// The block rules configured out of the box, each with a fresh identifier.
pub fn default_url_rules() -> (r: Vec<UrlRule>)
    ensures
        r@.map_values(|u: UrlRule| rule_text(u)) == default_rules_text(),
        forall|i: int|
            0 <= i < r@.len() ==> {
                &&& is_uuid((#[trigger] r@[i]).id@)
                &&& r@[i].rule_type == UrlRuleType::Block
                &&& r@[i].enabled
            },
{
    let mut v: Vec<UrlRule> = Vec::new();
    v.push(make_rule("示例阻止规则", "example-block.com", "测试"));
    v.push(make_rule("赌博网站", "bet365", "赌博"));
    assert(v@.map_values(|u: UrlRule| rule_text(u)) =~= default_rules_text());
    v
}

pub open spec fn strings_view(v: Seq<String>) -> Seq<Seq<char>> {
    v.map_values(|s: String| s@)
}

/// The categories blocked out of the box.
pub open spec fn default_categories_text() -> Seq<Seq<char>> {
    seq!["porn"@, "gambling"@, "violence"@, "drugs"@, "hate"@]
}

/// The categories blocked out of the box.
pub fn default_blocked_categories() -> (r: Vec<String>)
    ensures
        strings_view(r@) == default_categories_text(),
        categories_distinct(r@),
{
    let mut v: Vec<String> = Vec::new();
    v.push(string_of("porn"));
    v.push(string_of("gambling"));
    v.push(string_of("violence"));
    v.push(string_of("drugs"));
    v.push(string_of("hate"));
    assert(strings_view(v@) =~= default_categories_text());
    proof {
        reveal_strlit("porn");
        reveal_strlit("gambling");
        reveal_strlit("violence");
        reveal_strlit("drugs");
        reveal_strlit("hate");
        let t = default_categories_text();
        assert(t[0][0] == 'p' && t[1][0] == 'g' && t[2][0] == 'v' && t[3][0] == 'd' && t[4][0] == 'h');
        assert forall|i: int, j: int| 0 <= i < j < v@.len() implies (#[trigger] v@[i])@ != (
        #[trigger] v@[j])@ by {
            assert(v@[i]@ == strings_view(v@)[i] && v@[j]@ == strings_view(v@)[j]);
            assert(t[i][0] != t[j][0]);
        }
    }
    v
}

impl Default for FilterConfig {
    fn default() -> (r: Self)
        ensures
            r.mode == Mode::Teen,
            !r.time_rule.enabled,
            r.time_rule.slots@.len() == 0,
            r.time_rule.max_daily_minutes == 480,
            r.time_rule.usage_today.used_minutes == 0,
            r.time_rule.usage_today.date@ == Seq::<char>::empty(),
            r.url_rules@.map_values(|u: UrlRule| rule_text(u)) == default_rules_text(),
            forall|i: int|
                0 <= i < r.url_rules@.len() ==> {
                    &&& is_uuid((#[trigger] r.url_rules@[i]).id@)
                    &&& r.url_rules@[i].rule_type == UrlRuleType::Block
                    &&& r.url_rules@[i].enabled
                },
            r.recommended_sites@.map_values(|s: RecommendedSite| site_text(s))
                == default_sites_text(),
            forall|i: int|
                0 <= i < r.recommended_sites@.len() ==> (#[trigger] r.recommended_sites@[i]).enabled,
            strings_view(r.block_categories@) == default_categories_text(),
            r.wf(),
            r.cloud_fallback,
    {
        FilterConfig {
            mode: Mode::Teen,
            time_rule: TimeRule::default(),
            url_rules: default_url_rules(),
            recommended_sites: default_recommended_sites(),
            block_categories: default_blocked_categories(),
            cloud_fallback: true,
        }
    }
}

/// A rule blocks a request when it is enabled and either its pattern matches
/// the domain or its (non-empty) pattern occurs in the URL.
pub open spec fn rule_blocks(rule: UrlRule, url: Seq<char>, domain: Seq<char>) -> bool {
    rule.enabled && (pattern_matches(rule.pattern@, domain) || (rule.pattern@.len() > 0
        && contains_seq(url, rule.pattern@)))
}

/// The name of the first rule that blocks the request, if any.
pub open spec fn url_verdict(rules: Seq<UrlRule>, url: Seq<char>, domain: Seq<char>) -> Option<
    Seq<char>,
>
    decreases rules.len(),
{
    if rules.len() == 0 {
        None
    } else if rule_blocks(rules[0], url, domain) {
        Some(rules[0].name@)
    } else {
        url_verdict(rules.drop_first(), url, domain)
    }
}

/// The scan of the rules reaches no enabled rule whose pattern is `*` alone
/// before it stops.
pub open spec fn url_check_safe(rules: Seq<UrlRule>, url: Seq<char>, domain: Seq<char>) -> bool
    decreases rules.len(),
{
    if rules.len() == 0 {
        true
    } else if rules[0].enabled && lone_star(rules[0].pattern@) {
        false
    } else if rule_blocks(rules[0], url, domain) {
        true
    } else {
        url_check_safe(rules.drop_first(), url, domain)
    }
}

/// `category` is one of `cats`.
pub open spec fn has_string(cats: Seq<String>, category: Seq<char>) -> bool {
    exists|i: int| 0 <= i < cats.len() && (#[trigger] cats[i])@ == category
}

impl FilterConfig {
    /// Checks a request against the URL rules in order: the first enabled
    /// rule that blocks it names the refusal.
    pub fn check_url(&self, url: &str, domain: &str) -> (r: (bool, Option<String>))
        requires
            url_check_safe(self.url_rules@, url@, domain@),
        ensures
            r.0 == (url_verdict(self.url_rules@, url@, domain@) is None),
            opt_view(r.1) == url_verdict(self.url_rules@, url@, domain@),
    {
        let u = str_to_chars(url);
        let d = str_to_chars(domain);
        let mut i: usize = 0;
        assert(self.url_rules@.skip(0) =~= self.url_rules@);
        while i < self.url_rules.len()
            invariant
                0 <= i <= self.url_rules@.len(),
                u@ == url@,
                d@ == domain@,
                url_verdict(self.url_rules@, url@, domain@) == url_verdict(
                    self.url_rules@.skip(i as int),
                    url@,
                    domain@,
                ),
                url_check_safe(self.url_rules@.skip(i as int), url@, domain@),
            decreases self.url_rules@.len() - i,
        {
            let ghost rest = self.url_rules@.skip(i as int);
            assert(rest.drop_first() =~= self.url_rules@.skip(i + 1));
            assert(rest[0] == self.url_rules@[i as int]);
            let rule = &self.url_rules[i];
            if rule.enabled {
                let p = str_to_chars(rule.pattern.as_str());
                if matches_chars(&p, &d) {
                    return (false, Some(rule.name.clone()));
                }
                if p.len() > 0 && chars_contains(u.as_slice(), p.as_slice()) {
                    return (false, Some(rule.name.clone()));
                }
            }
            i = i + 1;
        }
        (true, None)
    }

    /// Whether the rule scan for this request stops before it reaches an
    /// enabled rule whose pattern is `*` alone (matching that one fails).
    pub fn url_check_is_safe(&self, url: &str, domain: &str) -> (r: bool)
        ensures
            r == url_check_safe(self.url_rules@, url@, domain@),
    {
        let u = str_to_chars(url);
        let d = str_to_chars(domain);
        let mut i: usize = 0;
        assert(self.url_rules@.skip(0) =~= self.url_rules@);
        while i < self.url_rules.len()
            invariant
                0 <= i <= self.url_rules@.len(),
                u@ == url@,
                d@ == domain@,
                url_check_safe(self.url_rules@, url@, domain@) == url_check_safe(
                    self.url_rules@.skip(i as int),
                    url@,
                    domain@,
                ),
            decreases self.url_rules@.len() - i,
        {
            let ghost rest = self.url_rules@.skip(i as int);
            assert(rest.drop_first() =~= self.url_rules@.skip(i + 1));
            assert(rest[0] == self.url_rules@[i as int]);
            let rule = &self.url_rules[i];
            if rule.enabled {
                let p = str_to_chars(rule.pattern.as_str());
                if p.len() == 1 && p[0] == '*' {
                    assert(p@ =~= seq!['*']);
                    return false;
                }
                assert(!lone_star(p@));
                if matches_chars(&p, &d) {
                    return true;
                }
                if p.len() > 0 && chars_contains(u.as_slice(), p.as_slice()) {
                    return true;
                }
            }
            i = i + 1;
        }
        true
    }

    /// Whether no blocked category occurs twice.
    pub fn has_distinct_categories(&self) -> (r: bool)
        ensures
            r == self.wf(),
    {
        let cats = &self.block_categories;
        let n = cats.len();
        let mut i: usize = 0;
        while i < n
            invariant
                n == cats@.len(),
                cats@ == self.block_categories@,
                i <= n,
                forall|a: int, b: int| 0 <= a < i && a < b < n ==> (#[trigger] cats@[a])@ != (
                #[trigger] cats@[b])@,
            decreases n - i,
        {
            let mut j: usize = i + 1;
            while j < n
                invariant
                    n == cats@.len(),
                    cats@ == self.block_categories@,
                    i < n,
                    i + 1 <= j <= n,
                    forall|a: int, b: int| 0 <= a < i && a < b < n ==> (#[trigger] cats@[a])@ != (
                    #[trigger] cats@[b])@,
                    forall|b: int| i < b < j ==> cats@[i as int]@ != (#[trigger] cats@[b])@,
                decreases n - j,
            {
                if str_eq(cats[i].as_str(), cats[j].as_str()) {
                    assert(!self.wf()) by {
                        assert(cats@ == self.block_categories@);
                        assert(cats@[i as int]@ == cats@[j as int]@);
                        assert(0 <= i < j < self.block_categories@.len());
                    }
                    return false;
                }
                j = j + 1;
            }
            i = i + 1;
        }
        true
    }

    /// Whether `category` is one of the blocked categories.
    pub fn is_blocked_category(&self, category: &str) -> (r: bool)
        ensures
            r == has_string(self.block_categories@, category@),
    {
        let mut i: usize = 0;
        while i < self.block_categories.len()
            invariant
                0 <= i <= self.block_categories@.len(),
                forall|j: int| 0 <= j < i ==> (#[trigger] self.block_categories@[j])@ != category@,
            decreases self.block_categories@.len() - i,
        {
            if str_eq(self.block_categories[i].as_str(), category) {
                return true;
            }
            i = i + 1;
        }
        false
    }
}

// ---------------------------------------------------------------------------
// Application state
// ---------------------------------------------------------------------------

#[derive(Debug, Clone)]
pub struct AppState {
    pub config: FilterConfig,
    pub pin_hash: Option<String>,
    pub is_blocked: bool,
    pub block_reason: Option<String>,
}

impl Default for AppState {
    fn default() -> (r: Self)
        ensures
            r.config.mode == Mode::Teen,
            r.config.url_rules@.map_values(|u: UrlRule| rule_text(u)) == default_rules_text(),
            r.pin_hash is None,
            !r.is_blocked,
            r.block_reason is None,
    {
        AppState {
            config: FilterConfig::default(),
            pin_hash: None,
            is_blocked: false,
            block_reason: None,
        }
    }
}

} // verus!
