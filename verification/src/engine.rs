//! The filter engine: the configuration in force, the parent PIN, and the
//! access decision that every front end (proxy, DNS, TUN) asks for.
use vstd::prelude::*;
use vstd::std_specs::hash::DefaultHasherAdditionalSpecFns;
use vstd::utf8::encode_utf8;
use std::collections::hash_map::DefaultHasher;
use std::hash::Hasher;
use std::path::PathBuf;
use crate::models::{
    access_at, has_string, local_now, opt_view, remaining_on, url_check_safe, url_verdict,
    clock_valid, FilterConfig, LocalClock, Mode, RecommendedSite, UrlRule,
};
use crate::text::{chars_contains, contains_seq, push_str, str_eq, str_to_chars, string_of, hex, u64_to_hex};

verus! {

broadcast use vstd::string::group_string_axioms;

#[verifier::external_type_specification]
#[verifier::external_body]
pub struct ExPathBuf(PathBuf);

pub struct FilterEngine {
    config: FilterConfig,
    pin_hash: Option<String>,
    config_path: Option<PathBuf>,
}

pub struct FilterEngineState {
    pub mode: Mode,
    pub is_blocked: bool,
    pub remaining_minutes: u32,
    pub used_minutes: u32,
    pub max_minutes: u32,
    pub active_rules: usize,
}

// ---------------------------------------------------------------------------
// Category lookup
// ---------------------------------------------------------------------------

/// The domains known by name, each with its category.
pub open spec fn known_sites() -> Seq<(Seq<char>, Seq<char>)> {
    seq![
        ("pornhub"@, "porn"@),
        ("xvideos"@, "porn"@),
        ("xhamster"@, "porn"@),
        ("instagram"@, "social"@),
        ("tiktok"@, "social"@),
        ("twitter"@, "social"@),
        ("facebook"@, "social"@),
        ("youtube"@, "video"@),
        ("netflix"@, "video"@),
        ("bilibili"@, "video"@),
        ("douyin"@, "video"@),
        ("wetv"@, "video"@),
        ("bet365"@, "gambling"@),
        ("pokerstars"@, "gambling"@),
        ("steam"@, "gaming"@),
        ("epicgames"@, "gaming"@),
    ]
}

/// A known name relates to a domain when either contains the other.
pub open spec fn name_related(name: Seq<char>, domain: Seq<char>) -> bool {
    contains_seq(domain, name) || contains_seq(name, domain)
}

/// The category of the first known name related to `domain`, from index
/// `i` on.
pub open spec fn category_from(domain: Seq<char>, i: int) -> Option<Seq<char>>
    decreases known_sites().len() - i,
{
    if i < 0 || i >= known_sites().len() {
        None
    } else if name_related(known_sites()[i].0, domain) {
        Some(known_sites()[i].1)
    } else {
        category_from(domain, i + 1)
    }
}

/// The category of `domain`, if a known name relates to it.
pub open spec fn category_of(domain: Seq<char>) -> Option<Seq<char>> {
    category_from(domain, 0)
}

fn known_site_names() -> (r: Vec<(String, String)>)
    ensures
        r@.map_values(|p: (String, String)| (p.0@, p.1@)) == known_sites(),
{
    let mut v: Vec<(String, String)> = Vec::new();
    v.push((string_of("pornhub"), string_of("porn")));
    v.push((string_of("xvideos"), string_of("porn")));
    v.push((string_of("xhamster"), string_of("porn")));
    v.push((string_of("instagram"), string_of("social")));
    v.push((string_of("tiktok"), string_of("social")));
    v.push((string_of("twitter"), string_of("social")));
    v.push((string_of("facebook"), string_of("social")));
    v.push((string_of("youtube"), string_of("video")));
    v.push((string_of("netflix"), string_of("video")));
    v.push((string_of("bilibili"), string_of("video")));
    v.push((string_of("douyin"), string_of("video")));
    v.push((string_of("wetv"), string_of("video")));
    v.push((string_of("bet365"), string_of("gambling")));
    v.push((string_of("pokerstars"), string_of("gambling")));
    v.push((string_of("steam"), string_of("gaming")));
    v.push((string_of("epicgames"), string_of("gaming")));
    assert(v@.map_values(|p: (String, String)| (p.0@, p.1@)) =~= known_sites());
    v
}

/// The category of `domain` among the known names.
pub fn query_category(domain: &str) -> (r: Option<String>)
    ensures
        opt_view(r) == category_of(domain@),
{
    let table = known_site_names();
    let d = str_to_chars(domain);
    let ghost views = table@.map_values(|p: (String, String)| (p.0@, p.1@));
    let mut i: usize = 0;
    while i < table.len()
        invariant
            0 <= i <= table@.len(),
            views == table@.map_values(|p: (String, String)| (p.0@, p.1@)),
            views == known_sites(),
            d@ == domain@,
            category_of(domain@) == category_from(domain@, i as int),
        decreases table@.len() - i,
    {
        let name = str_to_chars(table[i].0.as_str());
        assert(views[i as int] == (table@[i as int].0@, table@[i as int].1@));
        if chars_contains(d.as_slice(), name.as_slice()) || chars_contains(
            name.as_slice(),
            d.as_slice(),
        ) {
            return Some(table[i].1.clone());
        }
        i = i + 1;
    }
    None
}

/// The decision for a bare name (a TLS server name or a DNS query name) at
/// the clock reading `c`: the access decision with the name as both the
/// domain and the URL.
pub open spec fn name_verdict(cfg: FilterConfig, name: Seq<char>, c: LocalClock) -> (
    bool,
    Option<Seq<char>>,
) {
    access_verdict(cfg, name, name, c)
}

/// The refusal given for a blocked category.
pub open spec fn category_message(cat: Seq<char>) -> Seq<char> {
    "该类别("@ + cat + ")已被禁止访问"@
}

/// The access decision for `domain` (requested as `url`) at the moment `c`:
/// parent mode allows everything; otherwise the time rule, then the URL
/// rules, then the blocked categories may refuse, each with its reason.
pub open spec fn access_verdict(
    cfg: FilterConfig,
    domain: Seq<char>,
    url: Seq<char>,
    c: LocalClock,
) -> (bool, Option<Seq<char>>) {
    if cfg.mode == Mode::Parent {
        (true, None)
    } else if !access_at(cfg.time_rule, c).0 {
        (false, Some(access_at(cfg.time_rule, c).1))
    } else {
        match url_verdict(cfg.url_rules@, url, domain) {
            Some(name) => (false, Some(name)),
            None => match category_of(domain) {
                Some(cat) => if has_string(cfg.block_categories@, cat) {
                    (false, Some(category_message(cat)))
                } else {
                    (true, None)
                },
                None => (true, None),
            },
        }
    }
}

/// The URL rules can be scanned for this request without reaching a lone
/// `*` pattern, whenever the scan is reached.
pub open spec fn access_check_safe(
    cfg: FilterConfig,
    domain: Seq<char>,
    url: Seq<char>,
    c: LocalClock,
) -> bool {
    (cfg.mode == Mode::Teen && access_at(cfg.time_rule, c).0) ==> url_check_safe(
        cfg.url_rules@,
        url,
        domain,
    )
}

/// The text that `hash_pin` renders for `pin`: the hexadecimal of the
/// `DefaultHasher` digest of the string (its bytes, then `0xff`).
pub open spec fn pin_hash_text(pin: Seq<char>) -> Seq<char> {
    hex(DefaultHasher::spec_finish(seq![encode_utf8(pin), seq![0xffu8]]) as nat)
}

/// The digest of a PIN, in lower-case hexadecimal: `DefaultHasher` fed the
/// string as `str::hash` feeds it (its UTF-8 bytes, then the byte `0xff`).
pub fn hash_pin(pin: &str) -> (r: String)
    ensures
        r@ == pin_hash_text(pin@),
{
    let mut hasher = DefaultHasher::new();
    hasher.write(pin.as_bytes());
    let terminator: [u8; 1] = [0xff];
    hasher.write(terminator.as_slice());
    assert(terminator@ =~= seq![0xffu8]);
    assert(hasher@ =~= seq![encode_utf8(pin@), seq![0xffu8]]);
    let digest = hasher.finish();
    u64_to_hex(digest)
}

/// Whether a stored PIN hash admits `pin`: no stored hash admits every PIN.
pub open spec fn pin_accepts(stored: Option<Seq<char>>, pin: Seq<char>) -> bool {
    match stored {
        Some(h) => pin_hash_text(pin) == h,
        None => true,
    }
}

fn clone_site(s: &RecommendedSite) -> (r: RecommendedSite)
    ensures
        r == *s,
{
    RecommendedSite {
        id: s.id.clone(),
        title: s.title.clone(),
        description: s.description.clone(),
        url: s.url.clone(),
        icon: s.icon.clone(),
        category: s.category.clone(),
        enabled: s.enabled,
    }
}

/// The rules with an id other than `id`, in order.
pub open spec fn rules_without(rules: Seq<UrlRule>, id: Seq<char>) -> Seq<UrlRule> {
    rules.filter(|r: UrlRule| r.id@ != id)
}

/// The sites with an id other than `id`, in order.
pub open spec fn sites_without(sites: Seq<RecommendedSite>, id: Seq<char>) -> Seq<RecommendedSite> {
    sites.filter(|s: RecommendedSite| s.id@ != id)
}

/// Index of the first site with the id `id`.
pub open spec fn first_site_with_id(sites: Seq<RecommendedSite>, id: Seq<char>, i: int) -> bool {
    0 <= i < sites.len() && sites[i].id@ == id && forall|j: int| 0 <= j < i ==> sites[j].id@ != id
}

impl FilterEngine {
    pub closed spec fn spec_config(&self) -> FilterConfig {
        self.config
    }

    pub closed spec fn spec_pin_hash(&self) -> Option<String> {
        self.pin_hash
    }

    pub closed spec fn spec_config_path(&self) -> Option<PathBuf> {
        self.config_path
    }

    /// An engine with `config` in force, no PIN and no file to keep the
    /// configuration in.
    /// An engine whose blocked categories form a set.
    pub open spec fn wf(&self) -> bool {
        self.spec_config().wf()
    }

    pub fn new(config: FilterConfig) -> (r: Self)
        requires
            config.wf(),
        ensures
            r.wf(),
            r.spec_config() == config,
            r.spec_pin_hash() is None,
            r.spec_config_path() is None,
    {
        FilterEngine { config, pin_hash: None, config_path: None }
    }

    /// The same engine, keeping its configuration in the file `path`.
    pub fn with_config_path(self, path: PathBuf) -> (r: Self)
        ensures
            r.spec_config() == self.spec_config(),
            r.spec_pin_hash() == self.spec_pin_hash(),
            r.spec_config_path() == Some(path),
    {
        FilterEngine { config: self.config, pin_hash: self.pin_hash, config_path: Some(path) }
    }

    /// The file that keeps the configuration, if any.
    pub fn config_path(&self) -> (r: Option<&PathBuf>)
        ensures
            r == match self.spec_config_path() {
                Some(p) => Some(&p),
                None => None::<&PathBuf>,
            },
    {
        match &self.config_path {
            Some(p) => Some(p),
            None => None,
        }
    }

    /// The configuration in force.
    pub fn get_config(&self) -> (r: &FilterConfig)
        ensures
            *r == self.spec_config(),
    {
        &self.config
    }

    /// The stored PIN hash.
    pub fn get_pin_hash(&self) -> (r: &Option<String>)
        ensures
            *r == self.spec_pin_hash(),
    {
        &self.pin_hash
    }

    /// Puts `config` in force (the caller then writes it to the file).
    pub fn update_config(&mut self, config: FilterConfig)
        requires
            config.wf(),
        ensures
            final(self).wf(),
            final(self).spec_config() == config,
            final(self).spec_pin_hash() == old(self).spec_pin_hash(),
            final(self).spec_config_path() == old(self).spec_config_path(),
    {
        self.config = config;
    }

    /// Replaces the configuration in force by one read back from the file.
    pub fn load_config(&mut self, config: FilterConfig)
        requires
            config.wf(),
        ensures
            final(self).wf(),
            final(self).spec_config() == config,
            final(self).spec_pin_hash() == old(self).spec_pin_hash(),
            final(self).spec_config_path() == old(self).spec_config_path(),
    {
        self.config = config;
    }

    pub fn is_parent_mode(&self) -> (r: bool)
        ensures
            r == (self.spec_config().mode == Mode::Parent),
    {
        self.config.mode == Mode::Parent
    }

    /// The access decision for `domain`, requested as `url`, at the clock
    /// reading `clock`.
    pub fn check_access_at(&self, domain: &str, url: &str, clock: &LocalClock) -> (r: (
        bool,
        Option<String>,
    ))
        requires
            access_check_safe(self.spec_config(), domain@, url@, *clock),
        ensures
            (r.0, opt_view(r.1)) == access_verdict(self.spec_config(), domain@, url@, *clock),
    {
        if self.config.mode == Mode::Parent {
            return (true, None);
        }
        let (allowed, reason) = self.config.time_rule.is_access_allowed_at(clock);
        if !allowed {
            return (false, Some(reason));
        }
        let (url_allowed, url_reason) = self.config.check_url(url, domain);
        if !url_allowed {
            return (false, url_reason);
        }
        match query_category(domain) {
            Some(category) => {
                if self.config.is_blocked_category(category.as_str()) {
                    let mut msg = string_of("该类别(");
                    push_str(&mut msg, category.as_str());
                    push_str(&mut msg, ")已被禁止访问");
                    (false, Some(msg))
                } else {
                    (true, None)
                }
            },
            None => (true, None),
        }
    }

    /// The access decision for `domain`, requested as `url`, now; `None`
    /// where reaching the decision means matching an enabled rule whose
    /// pattern is `*` alone, which cannot be matched.
    pub fn check_access_guarded(&self, domain: &str, url: &str) -> (r: Option<(bool, Option<String>)>)
        ensures
            exists|c: LocalClock|
                clock_valid(c) && #[trigger] access_check_safe(self.spec_config(), domain@, url@, c)
                    == (r is Some) && (r matches Some(v) ==> (v.0, opt_view(v.1)) == access_verdict(
                    self.spec_config(),
                    domain@,
                    url@,
                    c,
                )),
            self.spec_config().mode == Mode::Parent ==> r == Some((true, None::<String>)),
    {
        let clock = local_now();
        let safe = if self.config.mode == Mode::Teen {
            let (allowed, _) = self.config.time_rule.is_access_allowed_at(&clock);
            !allowed || self.config.url_check_is_safe(url, domain)
        } else {
            true
        };
        if !safe {
            assert(clock_valid(clock) && !access_check_safe(self.spec_config(), domain@, url@, clock));
            return None;
        }
        let r = self.check_access_at(domain, url, &clock);
        assert(clock_valid(clock) && access_check_safe(self.spec_config(), domain@, url@, clock));
        Some(r)
    }

    /// The access decision for `domain`, requested as `url`, now.
    pub fn check_access(&self, domain: &str, url: &str) -> (r: (bool, Option<String>))
        requires
            self.spec_config().mode == Mode::Teen ==> url_check_safe(
                self.spec_config().url_rules@,
                url@,
                domain@,
            ),
        ensures
            exists|c: LocalClock|
                clock_valid(c) && (r.0, opt_view(r.1)) == #[trigger] access_verdict(
                    self.spec_config(),
                    domain@,
                    url@,
                    c,
                ),
            self.spec_config().mode == Mode::Parent ==> r.0 && r.1 is None,
            !self.spec_config().time_rule.enabled ==> forall|c: LocalClock|
                (r.0, opt_view(r.1)) == #[trigger] access_verdict(self.spec_config(), domain@, url@, c),
    {
        let clock = local_now();
        let r = self.check_access_at(domain, url, &clock);
        proof {
            if !self.spec_config().time_rule.enabled {
                assert forall|c: LocalClock|
                    (r.0, opt_view(r.1)) == #[trigger] access_verdict(
                        self.spec_config(),
                        domain@,
                        url@,
                        c,
                    ) by {
                    assert(access_at(self.spec_config().time_rule, c) == access_at(
                        self.spec_config().time_rule,
                        clock,
                    ));
                }
            }
        }
        r
    }

    /// The access decision for a TLS server name.
    pub fn check_sni(&self, sni: &str) -> (r: (bool, Option<String>))
        requires
            self.spec_config().mode == Mode::Teen ==> url_check_safe(
                self.spec_config().url_rules@,
                sni@,
                sni@,
            ),
        ensures
            exists|c: LocalClock|
                clock_valid(c) && (r.0, opt_view(r.1)) == #[trigger] name_verdict(
                    self.spec_config(),
                    sni@,
                    c,
                ),
            self.spec_config().mode == Mode::Parent ==> r.0 && r.1 is None,
            !self.spec_config().time_rule.enabled ==> forall|c: LocalClock|
                (r.0, opt_view(r.1)) == #[trigger] name_verdict(self.spec_config(), sni@, c),
    {
        let r = self.check_access(sni, sni);
        proof {
            let c = choose|c: LocalClock|
                clock_valid(c) && (r.0, opt_view(r.1)) == #[trigger] access_verdict(
                    self.spec_config(),
                    sni@,
                    sni@,
                    c,
                );
            assert(name_verdict(self.spec_config(), sni@, c) == access_verdict(self.spec_config(), sni@, sni@, c));
            if !self.spec_config().time_rule.enabled {
                assert forall|c2: LocalClock|
                    (r.0, opt_view(r.1)) == #[trigger] name_verdict(self.spec_config(), sni@, c2) by {
                    assert(name_verdict(self.spec_config(), sni@, c2) == access_verdict(
                        self.spec_config(),
                        sni@,
                        sni@,
                        c2,
                    ));
                }
            }
        }
        r
    }

    /// The access decision for a DNS query name.
    pub fn check_dns(&self, domain: &str) -> (r: (bool, Option<String>))
        requires
            self.spec_config().mode == Mode::Teen ==> url_check_safe(
                self.spec_config().url_rules@,
                domain@,
                domain@,
            ),
        ensures
            exists|c: LocalClock|
                clock_valid(c) && (r.0, opt_view(r.1)) == #[trigger] name_verdict(
                    self.spec_config(),
                    domain@,
                    c,
                ),
            self.spec_config().mode == Mode::Parent ==> r.0 && r.1 is None,
            !self.spec_config().time_rule.enabled ==> forall|c: LocalClock|
                (r.0, opt_view(r.1)) == #[trigger] name_verdict(self.spec_config(), domain@, c),
    {
        let r = self.check_access(domain, domain);
        proof {
            let c = choose|c: LocalClock|
                clock_valid(c) && (r.0, opt_view(r.1)) == #[trigger] access_verdict(
                    self.spec_config(),
                    domain@,
                    domain@,
                    c,
                );
            assert(name_verdict(self.spec_config(), domain@, c) == access_verdict(self.spec_config(), domain@, domain@, c));
            if !self.spec_config().time_rule.enabled {
                assert forall|c2: LocalClock|
                    (r.0, opt_view(r.1)) == #[trigger] name_verdict(self.spec_config(), domain@, c2) by {
                    assert(name_verdict(self.spec_config(), domain@, c2) == access_verdict(
                        self.spec_config(),
                        domain@,
                        domain@,
                        c2,
                    ));
                }
            }
        }
        r
    }

    /// Appends `rule` to the URL rules.
    pub fn add_url_rule(&mut self, rule: UrlRule)
        ensures
            final(self).wf() == old(self).wf(),
            final(self).spec_config().url_rules@ == old(self).spec_config().url_rules@.push(rule),
            final(self).spec_config().mode == old(self).spec_config().mode,
            final(self).spec_config().time_rule == old(self).spec_config().time_rule,
            final(self).spec_config().recommended_sites == old(self).spec_config().recommended_sites,
            final(self).spec_config().block_categories == old(self).spec_config().block_categories,
            final(self).spec_config().cloud_fallback == old(self).spec_config().cloud_fallback,
            final(self).spec_pin_hash() == old(self).spec_pin_hash(),
            final(self).spec_config_path() == old(self).spec_config_path(),
    {
        self.config.url_rules.push(rule);
    }

    /// Removes every URL rule with the id `rule_id`, keeping the others in
    /// order.
    pub fn remove_url_rule(&mut self, rule_id: &str)
        ensures
            final(self).wf() == old(self).wf(),
            final(self).spec_config().url_rules@ == rules_without(
                old(self).spec_config().url_rules@,
                rule_id@,
            ),
            final(self).spec_config().mode == old(self).spec_config().mode,
            final(self).spec_config().time_rule == old(self).spec_config().time_rule,
            final(self).spec_config().recommended_sites == old(self).spec_config().recommended_sites,
            final(self).spec_config().block_categories == old(self).spec_config().block_categories,
            final(self).spec_config().cloud_fallback == old(self).spec_config().cloud_fallback,
            final(self).spec_pin_hash() == old(self).spec_pin_hash(),
            final(self).spec_config_path() == old(self).spec_config_path(),
    {
        let mut rules: Vec<UrlRule> = Vec::new();
        std::mem::swap(&mut rules, &mut self.config.url_rules);
        let mut kept: Vec<UrlRule> = Vec::new();
        let ghost all = rules@;
        for r in it: rules
            invariant
                it.seq() == all,
                kept@ == rules_without(it.seq().take(it.index() as int), rule_id@),
        {
            proof {
                reveal_with_fuel(Seq::<_>::filter, 1);
                assert(it.seq().take(it.index() + 1).drop_last() =~= it.seq().take(
                    it.index() as int,
                ));
            }
            if !str_eq(r.id.as_str(), rule_id) {
                kept.push(r);
            }
        }
        assert(all.take(all.len() as int) =~= all);
        self.config.url_rules = kept;
    }

    /// Copies of the recommended sites.
    pub fn get_recommended_sites(&self) -> (r: Vec<RecommendedSite>)
        ensures
            r@ == self.spec_config().recommended_sites@,
    {
        let mut v: Vec<RecommendedSite> = Vec::new();
        let mut i: usize = 0;
        while i < self.config.recommended_sites.len()
            invariant
                0 <= i <= self.config.recommended_sites@.len(),
                v@ == self.config.recommended_sites@.take(i as int),
            decreases self.config.recommended_sites@.len() - i,
        {
            v.push(clone_site(&self.config.recommended_sites[i]));
            i = i + 1;
            assert(v@ =~= self.config.recommended_sites@.take(i as int));
        }
        assert(self.config.recommended_sites@.take(i as int) =~= self.config.recommended_sites@);
        v
    }

    /// Appends `site` to the recommended sites.
    pub fn add_recommended_site(&mut self, site: RecommendedSite)
        ensures
            final(self).wf() == old(self).wf(),
            final(self).spec_config().recommended_sites@ == old(
                self,
            ).spec_config().recommended_sites@.push(site),
            final(self).spec_config().url_rules == old(self).spec_config().url_rules,
            final(self).spec_config().mode == old(self).spec_config().mode,
            final(self).spec_config().time_rule == old(self).spec_config().time_rule,
            final(self).spec_config().block_categories == old(self).spec_config().block_categories,
            final(self).spec_config().cloud_fallback == old(self).spec_config().cloud_fallback,
            final(self).spec_pin_hash() == old(self).spec_pin_hash(),
            final(self).spec_config_path() == old(self).spec_config_path(),
    {
        self.config.recommended_sites.push(site);
    }

    /// Removes every recommended site with the id `site_id`, keeping the
    /// others in order.
    pub fn remove_recommended_site(&mut self, site_id: &str)
        ensures
            final(self).wf() == old(self).wf(),
            final(self).spec_config().recommended_sites@ == sites_without(
                old(self).spec_config().recommended_sites@,
                site_id@,
            ),
            final(self).spec_config().url_rules == old(self).spec_config().url_rules,
            final(self).spec_config().mode == old(self).spec_config().mode,
            final(self).spec_config().time_rule == old(self).spec_config().time_rule,
            final(self).spec_config().block_categories == old(self).spec_config().block_categories,
            final(self).spec_config().cloud_fallback == old(self).spec_config().cloud_fallback,
            final(self).spec_pin_hash() == old(self).spec_pin_hash(),
            final(self).spec_config_path() == old(self).spec_config_path(),
    {
        let mut sites: Vec<RecommendedSite> = Vec::new();
        std::mem::swap(&mut sites, &mut self.config.recommended_sites);
        let mut kept: Vec<RecommendedSite> = Vec::new();
        let ghost all = sites@;
        for s in it: sites
            invariant
                it.seq() == all,
                kept@ == sites_without(it.seq().take(it.index() as int), site_id@),
        {
            proof {
                reveal_with_fuel(Seq::<_>::filter, 1);
                assert(it.seq().take(it.index() + 1).drop_last() =~= it.seq().take(
                    it.index() as int,
                ));
            }
            if !str_eq(s.id.as_str(), site_id) {
                kept.push(s);
            }
        }
        assert(all.take(all.len() as int) =~= all);
        self.config.recommended_sites = kept;
    }

    /// Replaces the first recommended site with the id of `site` by `site`;
    /// without such a site nothing changes.
    pub fn update_recommended_site(&mut self, site: RecommendedSite)
        ensures
            final(self).wf() == old(self).wf(),
            forall|i: int|
                first_site_with_id(old(self).spec_config().recommended_sites@, site.id@, i)
                    ==> final(self).spec_config().recommended_sites@ == old(
                    self,
                ).spec_config().recommended_sites@.update(i, site),
            (forall|i: int|
                0 <= i < old(self).spec_config().recommended_sites@.len() ==> (#[trigger] old(
                    self,
                ).spec_config().recommended_sites@[i]).id@ != site.id@)
                ==> final(self).spec_config().recommended_sites == old(
                self,
            ).spec_config().recommended_sites,
            final(self).spec_config().url_rules == old(self).spec_config().url_rules,
            final(self).spec_config().mode == old(self).spec_config().mode,
            final(self).spec_config().time_rule == old(self).spec_config().time_rule,
            final(self).spec_config().block_categories == old(self).spec_config().block_categories,
            final(self).spec_config().cloud_fallback == old(self).spec_config().cloud_fallback,
            final(self).spec_pin_hash() == old(self).spec_pin_hash(),
            final(self).spec_config_path() == old(self).spec_config_path(),
    {
        let mut i: usize = 0;
        while i < self.config.recommended_sites.len()
            invariant
                0 <= i <= self.config.recommended_sites@.len(),
                self.config.recommended_sites == old(self).config.recommended_sites,
                self.config.url_rules == old(self).config.url_rules,
                self.config.mode == old(self).config.mode,
                self.config.time_rule == old(self).config.time_rule,
                self.config.block_categories == old(self).config.block_categories,
                self.config.cloud_fallback == old(self).config.cloud_fallback,
                self.pin_hash == old(self).pin_hash,
                self.config_path == old(self).config_path,
                forall|j: int| 0 <= j < i ==> (#[trigger] self.config.recommended_sites@[j]).id@ != site.id@,
            decreases self.config.recommended_sites@.len() - i,
        {
            if str_eq(self.config.recommended_sites[i].id.as_str(), site.id.as_str()) {
                let ghost before = self.config.recommended_sites@;
                assert(first_site_with_id(before, site.id@, i as int));
                self.config.recommended_sites.set(i, site);
                assert forall|k: int| first_site_with_id(before, site.id@, k) implies k == i by {
                    if k < i {
                    } else if k > i {
                        assert(before[i as int].id@ == site.id@);
                    }
                }
                return;
            }
            i = i + 1;
        }
    }

    pub fn set_mode(&mut self, mode: Mode)
        ensures
            final(self).wf() == old(self).wf(),
            final(self).spec_config().mode == mode,
            final(self).spec_config().url_rules == old(self).spec_config().url_rules,
            final(self).spec_config().time_rule == old(self).spec_config().time_rule,
            final(self).spec_config().recommended_sites == old(self).spec_config().recommended_sites,
            final(self).spec_config().block_categories == old(self).spec_config().block_categories,
            final(self).spec_config().cloud_fallback == old(self).spec_config().cloud_fallback,
            final(self).spec_pin_hash() == old(self).spec_pin_hash(),
            final(self).spec_config_path() == old(self).spec_config_path(),
    {
        self.config.mode = mode;
    }

    /// Replaces the time rule.
    pub fn set_time_rule(&mut self, rule: crate::models::TimeRule)
        ensures
            final(self).wf() == old(self).wf(),
            final(self).spec_config().time_rule == rule,
            final(self).spec_config().mode == old(self).spec_config().mode,
            final(self).spec_config().url_rules == old(self).spec_config().url_rules,
            final(self).spec_config().recommended_sites == old(self).spec_config().recommended_sites,
            final(self).spec_config().block_categories == old(self).spec_config().block_categories,
            final(self).spec_config().cloud_fallback == old(self).spec_config().cloud_fallback,
            final(self).spec_pin_hash() == old(self).spec_pin_hash(),
            final(self).spec_config_path() == old(self).spec_config_path(),
    {
        self.config.time_rule = rule;
    }

    /// The summary of the engine's state on the date `today`.
    pub fn get_state_on(&self, today: &str) -> (r: FilterEngineState)
        ensures
            r.mode == self.spec_config().mode,
            r.remaining_minutes == remaining_on(self.spec_config().time_rule, today@),
            r.is_blocked == (r.remaining_minutes == 0),
            r.used_minutes == self.spec_config().time_rule.usage_today.used_minutes,
            r.max_minutes == self.spec_config().time_rule.max_daily_minutes,
            r.active_rules == self.spec_config().url_rules@.len(),
    {
        let remaining = self.config.time_rule.remaining_minutes_on(today);
        FilterEngineState {
            mode: self.config.mode,
            is_blocked: remaining == 0,
            remaining_minutes: remaining,
            used_minutes: self.config.time_rule.usage_today.used_minutes,
            max_minutes: self.config.time_rule.max_daily_minutes,
            active_rules: self.config.url_rules.len(),
        }
    }

    /// The summary of the engine's state today.
    pub fn get_state(&self) -> (r: FilterEngineState)
        ensures
            r.mode == self.spec_config().mode,
            exists|today: Seq<char>|
                r.remaining_minutes == #[trigger] remaining_on(self.spec_config().time_rule, today),
            r.is_blocked == (r.remaining_minutes == 0),
            r.used_minutes == self.spec_config().time_rule.usage_today.used_minutes,
            r.max_minutes == self.spec_config().time_rule.max_daily_minutes,
            r.active_rules == self.spec_config().url_rules@.len(),
    {
        let clock = local_now();
        self.get_state_on(clock.date.as_str())
    }

    /// Whether `hash` is the hash of `pin`.
    pub fn verify_pin(&self, pin: &str, hash: &str) -> (r: bool)
        ensures
            r == (pin_hash_text(pin@) == hash@),
    {
        let computed = hash_pin(pin);
        str_eq(computed.as_str(), hash)
    }

    /// Stores `hash` as the PIN hash.
    pub fn set_pin_hash(&mut self, hash: String)
        ensures
            final(self).wf() == old(self).wf(),
            final(self).spec_pin_hash() == Some(hash),
            final(self).spec_config() == old(self).spec_config(),
            final(self).spec_config_path() == old(self).spec_config_path(),
    {
        self.pin_hash = Some(hash);
    }

    pub fn has_pin(&self) -> (r: bool)
        ensures
            r == self.spec_pin_hash() is Some,
    {
        self.pin_hash.is_some()
    }

    /// Sets the parent PIN: stores its hash.
    pub fn set_pin(&mut self, pin: &str)
        ensures
            final(self).wf() == old(self).wf(),
            opt_view(final(self).spec_pin_hash()) == Some(pin_hash_text(pin@)),
            final(self).spec_config() == old(self).spec_config(),
            final(self).spec_config_path() == old(self).spec_config_path(),
    {
        let hash = hash_pin(pin);
        self.set_pin_hash(hash);
    }

    /// Checks a PIN against the stored hash; with no PIN set every PIN
    /// passes.
    pub fn check_pin(&self, pin: &str) -> (r: bool)
        ensures
            r == pin_accepts(opt_view(self.spec_pin_hash()), pin@),
    {
        match &self.pin_hash {
            Some(hash) => self.verify_pin(pin, hash.as_str()),
            None => true,
        }
    }
}


// ---------------------------------------------------------------------------
// Laws
// ---------------------------------------------------------------------------

/// After a PIN is set, that PIN passes the check.
pub proof fn lemma_set_pin_accepts(pin: Seq<char>)
    ensures
        pin_accepts(Some(pin_hash_text(pin)), pin),
{
}

/// Parent mode allows every request, whatever the rules and the clock.
pub proof fn lemma_parent_mode_allows(cfg: FilterConfig, domain: Seq<char>, url: Seq<char>, c: LocalClock)
    requires
        cfg.mode == Mode::Parent,
    ensures
        access_verdict(cfg, domain, url, c) == (true, None::<Seq<char>>),
{
}

/// Outside parent mode, once the day's allowance is used up every request
/// is refused with the limit message, whatever the URL rules and the
/// categories say.
pub proof fn lemma_time_limit_refuses(cfg: FilterConfig, domain: Seq<char>, url: Seq<char>, c: LocalClock)
    requires
        cfg.mode == Mode::Teen,
        cfg.time_rule.enabled,
        cfg.time_rule.usage_today.used_minutes >= cfg.time_rule.max_daily_minutes,
    ensures
        access_verdict(cfg, domain, url, c) == (
            false,
            Some(crate::models::limit_message(cfg.time_rule.max_daily_minutes)),
        ),
{
}

/// With the time rule off, the decision does not depend on the clock.
pub proof fn lemma_verdict_without_time_rule(
    cfg: FilterConfig,
    domain: Seq<char>,
    url: Seq<char>,
    c1: LocalClock,
    c2: LocalClock,
)
    requires
        !cfg.time_rule.enabled,
    ensures
        access_verdict(cfg, domain, url, c1) == access_verdict(cfg, domain, url, c2),
{
}

/// Appending a rule that blocks a request makes the URL rules refuse that
/// request (by that rule, or by an earlier one).
pub proof fn lemma_appended_rule_blocks(
    rules: Seq<UrlRule>,
    rule: UrlRule,
    url: Seq<char>,
    domain: Seq<char>,
)
    requires
        rule_blocks_spec(rule, url, domain),
    ensures
        url_verdict(rules.push(rule), url, domain) is Some,
    decreases rules.len(),
{
    if rules.len() == 0 {
        assert(rules.push(rule)[0] == rule);
    } else {
        assert(rules.push(rule).drop_first() =~= rules.drop_first().push(rule));
        lemma_appended_rule_blocks(rules.drop_first(), rule, url, domain);
    }
}

pub open spec fn rule_blocks_spec(rule: UrlRule, url: Seq<char>, domain: Seq<char>) -> bool {
    crate::models::rule_blocks(rule, url, domain)
}

/// The URL rules refuse a request exactly when some rule blocks it, and the
/// reason is the name of the first such rule.
pub proof fn lemma_url_verdict_first_blocking(rules: Seq<UrlRule>, url: Seq<char>, domain: Seq<char>)
    ensures
        url_verdict(rules, url, domain) is None <==> forall|i: int|
            0 <= i < rules.len() ==> !crate::models::rule_blocks(#[trigger] rules[i], url, domain),
        url_verdict(rules, url, domain) matches Some(n) ==> exists|i: int|
            0 <= i < rules.len() && crate::models::rule_blocks(#[trigger] rules[i], url, domain)
                && rules[i].name@ == n && forall|j: int|
                0 <= j < i ==> !crate::models::rule_blocks(#[trigger] rules[j], url, domain),
    decreases rules.len(),
{
    if rules.len() > 0 {
        lemma_url_verdict_first_blocking(rules.drop_first(), url, domain);
        assert forall|i: int| 0 < i < rules.len() implies rules[i] == rules.drop_first()[i - 1] by {}
        if !crate::models::rule_blocks(rules[0], url, domain) {
            if let Some(n) = url_verdict(rules, url, domain) {
                let k = choose|k: int|
                    0 <= k < rules.drop_first().len() && crate::models::rule_blocks(
                        #[trigger] rules.drop_first()[k],
                        url,
                        domain,
                    ) && rules.drop_first()[k].name@ == n && forall|j: int|
                        0 <= j < k ==> !crate::models::rule_blocks(
                            #[trigger] rules.drop_first()[j],
                            url,
                            domain,
                        );
                assert(rules[k + 1] == rules.drop_first()[k]);
                assert forall|j: int| 0 <= j < k + 1 implies !crate::models::rule_blocks(
                    #[trigger] rules[j],
                    url,
                    domain,
                ) by {
                    if j > 0 {
                        assert(rules[j] == rules.drop_first()[j - 1]);
                    }
                }
            }
        }
    }
}

/// After removing the rules with an id, no rule with that id remains, and
/// removing again changes nothing.
pub proof fn lemma_remove_rule_idempotent(rules: Seq<UrlRule>, id: Seq<char>)
    ensures
        forall|i: int|
            0 <= i < rules_without(rules, id).len() ==> (#[trigger] rules_without(rules, id)[i]).id@
                != id,
        rules_without(rules_without(rules, id), id) == rules_without(rules, id),
{
    broadcast use vstd::seq_lib::group_filter_ensures;

    let once = rules_without(rules, id);
    assert forall|i: int| 0 <= i < once.len() implies (#[trigger] once[i]).id@ != id by {}
    lemma_without_absent(once, id);
}

proof fn lemma_without_absent(s: Seq<UrlRule>, id: Seq<char>)
    requires
        forall|i: int| 0 <= i < s.len() ==> (#[trigger] s[i]).id@ != id,
    ensures
        rules_without(s, id) == s,
    decreases s.len(),
{
    reveal_with_fuel(Seq::<_>::filter, 1);
    if s.len() > 0 {
        lemma_without_absent(s.drop_last(), id);
        assert(s.drop_last().push(s.last()) =~= s);
    } else {
        assert(rules_without(s, id) =~= s);
    }
}

/// Checking a TLS server name or a DNS query name is checking access with
/// that name as domain and URL: at any clock reading the two decide alike,
/// and with the time rule off they decide alike whatever the two readings.
pub proof fn lemma_name_check_is_access_check(cfg: FilterConfig, name: Seq<char>, c1: LocalClock, c2: LocalClock)
    ensures
        name_verdict(cfg, name, c1) == access_verdict(cfg, name, name, c1),
        !cfg.time_rule.enabled ==> name_verdict(cfg, name, c1) == access_verdict(cfg, name, name, c2),
{
    if !cfg.time_rule.enabled {
        lemma_verdict_without_time_rule(cfg, name, name, c1, c2);
    }
}

proof fn lemma_category_skips(domain: Seq<char>, j: int, i: int)
    requires
        0 <= j <= i < known_sites().len(),
        forall|m: int| j <= m < i ==> !#[trigger] name_related(known_sites()[m].0, domain),
    ensures
        category_from(domain, j) == category_from(domain, i),
    decreases i - j,
{
    if j < i {
        assert(!name_related(known_sites()[j].0, domain));
        lemma_category_skips(domain, j + 1, i);
    }
}

proof fn lemma_first_related_category(domain: Seq<char>, i: int)
    requires
        0 <= i < known_sites().len(),
        name_related(known_sites()[i].0, domain),
        forall|j: int| 0 <= j < i ==> !#[trigger] name_related(known_sites()[j].0, domain),
    ensures
        category_of(domain) == Some(known_sites()[i].1),
{
    lemma_category_skips(domain, 0, i);
}

/// The category of a domain is that of the first known site name related
/// to it (either holds the other), by the table: pornhub, xvideos and
/// xhamster are porn; instagram, tiktok, twitter and facebook social;
/// youtube, netflix, bilibili, douyin and wetv video; bet365 and
/// pokerstars gambling; steam and epicgames gaming.
pub proof fn lemma_known_site_categories(domain: Seq<char>)
    ensures
        name_related("pornhub"@, domain) ==> category_of(domain) == Some("porn"@),
        name_related("xvideos"@, domain) && (forall|j: int| 0 <= j < 1 ==> !#[trigger] name_related(known_sites()[j].0, domain))
            ==> category_of(domain) == Some("porn"@),
        name_related("xhamster"@, domain) && (forall|j: int| 0 <= j < 2 ==> !#[trigger] name_related(known_sites()[j].0, domain))
            ==> category_of(domain) == Some("porn"@),
        name_related("instagram"@, domain) && (forall|j: int| 0 <= j < 3 ==> !#[trigger] name_related(known_sites()[j].0, domain))
            ==> category_of(domain) == Some("social"@),
        name_related("tiktok"@, domain) && (forall|j: int| 0 <= j < 4 ==> !#[trigger] name_related(known_sites()[j].0, domain))
            ==> category_of(domain) == Some("social"@),
        name_related("twitter"@, domain) && (forall|j: int| 0 <= j < 5 ==> !#[trigger] name_related(known_sites()[j].0, domain))
            ==> category_of(domain) == Some("social"@),
        name_related("facebook"@, domain) && (forall|j: int| 0 <= j < 6 ==> !#[trigger] name_related(known_sites()[j].0, domain))
            ==> category_of(domain) == Some("social"@),
        name_related("youtube"@, domain) && (forall|j: int| 0 <= j < 7 ==> !#[trigger] name_related(known_sites()[j].0, domain))
            ==> category_of(domain) == Some("video"@),
        name_related("netflix"@, domain) && (forall|j: int| 0 <= j < 8 ==> !#[trigger] name_related(known_sites()[j].0, domain))
            ==> category_of(domain) == Some("video"@),
        name_related("bilibili"@, domain) && (forall|j: int| 0 <= j < 9 ==> !#[trigger] name_related(known_sites()[j].0, domain))
            ==> category_of(domain) == Some("video"@),
        name_related("douyin"@, domain) && (forall|j: int| 0 <= j < 10 ==> !#[trigger] name_related(known_sites()[j].0, domain))
            ==> category_of(domain) == Some("video"@),
        name_related("wetv"@, domain) && (forall|j: int| 0 <= j < 11 ==> !#[trigger] name_related(known_sites()[j].0, domain))
            ==> category_of(domain) == Some("video"@),
        name_related("bet365"@, domain) && (forall|j: int| 0 <= j < 12 ==> !#[trigger] name_related(known_sites()[j].0, domain))
            ==> category_of(domain) == Some("gambling"@),
        name_related("pokerstars"@, domain) && (forall|j: int| 0 <= j < 13 ==> !#[trigger] name_related(known_sites()[j].0, domain))
            ==> category_of(domain) == Some("gambling"@),
        name_related("steam"@, domain) && (forall|j: int| 0 <= j < 14 ==> !#[trigger] name_related(known_sites()[j].0, domain))
            ==> category_of(domain) == Some("gaming"@),
        name_related("epicgames"@, domain) && (forall|j: int| 0 <= j < 15 ==> !#[trigger] name_related(known_sites()[j].0, domain))
            ==> category_of(domain) == Some("gaming"@),
{
    assert(known_sites().len() == 16);
    if name_related("pornhub"@, domain) && (forall|j: int| 0 <= j < 0 ==> !#[trigger] name_related(known_sites()[j].0, domain)) {
        assert(known_sites()[0] == ("pornhub"@, "porn"@));
        lemma_first_related_category(domain, 0);
    }
    if name_related("xvideos"@, domain) && (forall|j: int| 0 <= j < 1 ==> !#[trigger] name_related(known_sites()[j].0, domain)) {
        assert(known_sites()[1] == ("xvideos"@, "porn"@));
        lemma_first_related_category(domain, 1);
    }
    if name_related("xhamster"@, domain) && (forall|j: int| 0 <= j < 2 ==> !#[trigger] name_related(known_sites()[j].0, domain)) {
        assert(known_sites()[2] == ("xhamster"@, "porn"@));
        lemma_first_related_category(domain, 2);
    }
    if name_related("instagram"@, domain) && (forall|j: int| 0 <= j < 3 ==> !#[trigger] name_related(known_sites()[j].0, domain)) {
        assert(known_sites()[3] == ("instagram"@, "social"@));
        lemma_first_related_category(domain, 3);
    }
    if name_related("tiktok"@, domain) && (forall|j: int| 0 <= j < 4 ==> !#[trigger] name_related(known_sites()[j].0, domain)) {
        assert(known_sites()[4] == ("tiktok"@, "social"@));
        lemma_first_related_category(domain, 4);
    }
    if name_related("twitter"@, domain) && (forall|j: int| 0 <= j < 5 ==> !#[trigger] name_related(known_sites()[j].0, domain)) {
        assert(known_sites()[5] == ("twitter"@, "social"@));
        lemma_first_related_category(domain, 5);
    }
    if name_related("facebook"@, domain) && (forall|j: int| 0 <= j < 6 ==> !#[trigger] name_related(known_sites()[j].0, domain)) {
        assert(known_sites()[6] == ("facebook"@, "social"@));
        lemma_first_related_category(domain, 6);
    }
    if name_related("youtube"@, domain) && (forall|j: int| 0 <= j < 7 ==> !#[trigger] name_related(known_sites()[j].0, domain)) {
        assert(known_sites()[7] == ("youtube"@, "video"@));
        lemma_first_related_category(domain, 7);
    }
    if name_related("netflix"@, domain) && (forall|j: int| 0 <= j < 8 ==> !#[trigger] name_related(known_sites()[j].0, domain)) {
        assert(known_sites()[8] == ("netflix"@, "video"@));
        lemma_first_related_category(domain, 8);
    }
    if name_related("bilibili"@, domain) && (forall|j: int| 0 <= j < 9 ==> !#[trigger] name_related(known_sites()[j].0, domain)) {
        assert(known_sites()[9] == ("bilibili"@, "video"@));
        lemma_first_related_category(domain, 9);
    }
    if name_related("douyin"@, domain) && (forall|j: int| 0 <= j < 10 ==> !#[trigger] name_related(known_sites()[j].0, domain)) {
        assert(known_sites()[10] == ("douyin"@, "video"@));
        lemma_first_related_category(domain, 10);
    }
    if name_related("wetv"@, domain) && (forall|j: int| 0 <= j < 11 ==> !#[trigger] name_related(known_sites()[j].0, domain)) {
        assert(known_sites()[11] == ("wetv"@, "video"@));
        lemma_first_related_category(domain, 11);
    }
    if name_related("bet365"@, domain) && (forall|j: int| 0 <= j < 12 ==> !#[trigger] name_related(known_sites()[j].0, domain)) {
        assert(known_sites()[12] == ("bet365"@, "gambling"@));
        lemma_first_related_category(domain, 12);
    }
    if name_related("pokerstars"@, domain) && (forall|j: int| 0 <= j < 13 ==> !#[trigger] name_related(known_sites()[j].0, domain)) {
        assert(known_sites()[13] == ("pokerstars"@, "gambling"@));
        lemma_first_related_category(domain, 13);
    }
    if name_related("steam"@, domain) && (forall|j: int| 0 <= j < 14 ==> !#[trigger] name_related(known_sites()[j].0, domain)) {
        assert(known_sites()[14] == ("steam"@, "gaming"@));
        lemma_first_related_category(domain, 14);
    }
    if name_related("epicgames"@, domain) && (forall|j: int| 0 <= j < 15 ==> !#[trigger] name_related(known_sites()[j].0, domain)) {
        assert(known_sites()[15] == ("epicgames"@, "gaming"@));
        lemma_first_related_category(domain, 15);
    }
}

/// A domain holding the name of one of the porn sites (pornhub, xvideos,
/// xhamster) is of the porn category.
pub proof fn lemma_porn_names_are_porn(domain: Seq<char>)
    requires
        contains_seq(domain, "pornhub"@) || contains_seq(domain, "xvideos"@) || contains_seq(
            domain,
            "xhamster"@,
        ),
    ensures
        category_of(domain) == Some("porn"@),
{
    lemma_known_site_categories(domain);
    if !name_related("pornhub"@, domain) {
        if !name_related("xvideos"@, domain) {
            assert(forall|j: int| 0 <= j < 2 ==> !#[trigger] name_related(known_sites()[j].0, domain)) by {
                assert(known_sites()[0].0 == "pornhub"@);
                assert(known_sites()[1].0 == "xvideos"@);
            }
        } else {
            assert(forall|j: int| 0 <= j < 1 ==> !#[trigger] name_related(known_sites()[j].0, domain)) by {
                assert(known_sites()[0].0 == "pornhub"@);
            }
        }
    }
}

/// In teen mode, at a moment the time rule allows and for a request no URL
/// rule blocks, a domain naming a porn site is refused with the porn
/// category's message whenever that category is blocked.
pub proof fn lemma_porn_sites_refused(cfg: FilterConfig, domain: Seq<char>, url: Seq<char>, c: LocalClock)
    requires
        cfg.mode == Mode::Teen,
        access_at(cfg.time_rule, c).0,
        url_verdict(cfg.url_rules@, url, domain) is None,
        has_string(cfg.block_categories@, "porn"@),
        contains_seq(domain, "pornhub"@) || contains_seq(domain, "xvideos"@) || contains_seq(
            domain,
            "xhamster"@,
        ),
    ensures
        access_verdict(cfg, domain, url, c) == (false, Some("该类别(porn)已被禁止访问"@)),
{
    lemma_porn_names_are_porn(domain);
    reveal_strlit("该类别(");
    reveal_strlit(")已被禁止访问");
    reveal_strlit("porn");
    reveal_strlit("该类别(porn)已被禁止访问");
    assert(category_message("porn"@) =~= "该类别(porn)已被禁止访问"@);
}

} // verus!
