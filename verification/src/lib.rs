//! Verified core of a parental web filter: the filtering model and engine,
//! the text and packet handling of its DNS server, block page server,
//! proxies and transparent tunnel, and the helpers behind its commands.
use vstd::prelude::*;

pub mod text;
pub mod scan;
pub mod models;
pub mod engine;
pub mod nat_table;
pub mod sni_filter;
pub mod packet;
pub mod tunnel;
pub mod proxy;
pub mod netinfo;
pub mod dns_server;
pub mod block_server;
pub mod commands;
pub mod config;
pub mod privilege;

use crate::engine::{access_verdict, FilterEngine};
use crate::models::{clock_valid, opt_view, LocalClock, Mode};
use crate::scan::{chars_trim_start_matches, trim_start_matches};
use crate::text::{chars_split, chars_to_string, split_char, str_to_chars};

verus! {

/// The domain of a URL: the text after any leading `https://` and then
/// `http://` prefixes, up to the first slash.
pub open spec fn url_domain(url: Seq<char>) -> Seq<char> {
    split_char(trim_start_matches(trim_start_matches(url, "https://"@), "http://"@), '/')[0]
}

/// The domain of a URL typed in for a manual check.
pub fn extract_domain(url: &str) -> (r: String)
    ensures
        r@ == url_domain(url@),
{
    let chars = str_to_chars(url);
    let https = str_to_chars("https://");
    let http = str_to_chars("http://");
    let a = chars_trim_start_matches(chars.as_slice(), https.as_slice());
    let b = chars_trim_start_matches(a.as_slice(), http.as_slice());
    let parts = chars_split(b.as_slice(), '/');
    assert(parts@.len() >= 1) by {
        crate::text::lemma_split_len(b@, '/');
    }
    assert(parts@[0]@ == url_domain(url@));
    chars_to_string(parts[0].as_slice())
}

/// The filter's answer for a URL typed in for a manual check: its domain
/// is checked, requested as the URL itself.
pub fn check_url(url: &str, engine: &FilterEngine) -> (r: (bool, Option<String>))
    requires
        engine.spec_config().mode == Mode::Teen ==> crate::models::url_check_safe(
            engine.spec_config().url_rules@,
            url@,
            url_domain(url@),
        ),
    ensures
        exists|c: LocalClock|
            clock_valid(c) && (r.0, opt_view(r.1)) == #[trigger] access_verdict(
                engine.spec_config(),
                url_domain(url@),
                url@,
                c,
            ),
{
    let domain = extract_domain(url);
    engine.check_access(domain.as_str(), url)
}

} // verus!
