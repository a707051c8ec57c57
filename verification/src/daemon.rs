//! How the daemon turns its settings and command-line overrides into what it
//! runs with: the listening address and directories, the upstream
//! resolvers, the cache lifetime, the query log pruning age, the metrics
//! switch, and the rule lists to download.

use vstd::prelude::*;

use crate::app_config::{duration_from_secs, duration_of_secs};
use crate::config::{Config, ListConfig, ListView, UpstreamView};
use crate::text::{append_str, chars_of, starts_with_chars, string_of, unicode_lowercase};
use crate::upstream::{
    protocol_named, Protocol, UpstreamConfig, UpstreamConfigView, DEFAULT_TIMEOUT_SECS,
};

verus! {

/// The value given on the command line, else the configured one.
pub fn override_or(arg: Option<String>, configured: &String) -> (v: String)
    ensures
        v@ == match arg {
            Some(a) => a@,
            None => configured@,
        },
{
    match arg {
        Some(a) => a,
        None => configured.clone(),
    }
}

/// The value given on the command line, else the configured one, if any.
pub fn override_opt(arg: Option<String>, configured: &Option<String>) -> (v: Option<String>)
    ensures
        match arg {
            Some(a) => v matches Some(x) && x@ == a@,
            None => match configured {
                Some(c) => v matches Some(x) && x@ == c@,
                None => v is None,
            },
        },
{
    match arg {
        Some(a) => Some(a),
        None => match configured {
            Some(c) => Some(c.clone()),
            None => None,
        },
    }
}

/// The resolvers that configured upstreams give: those whose protocol name
/// is known, in order, with their addresses.
pub open spec fn known_upstreams(ups: Seq<UpstreamView>) -> Seq<(Protocol, Seq<char>)>
    decreases ups.len(),
{
    if ups.len() == 0 {
        Seq::empty()
    } else {
        known_upstreams(ups.drop_last()) + match protocol_named(
            unicode_lowercase(ups.last().protocol),
        ) {
            Some(p) => seq![(p, ups.last().address)],
            None => Seq::empty(),
        }
    }
}

/// The resolvers the daemon forwards to: UDP to 1.1.1.1:53 when none is
/// configured, else the configured ones with a known protocol.
pub open spec fn daemon_upstreams(ups: Seq<UpstreamView>) -> Seq<(Protocol, Seq<char>)> {
    if ups.len() == 0 {
        seq![(Protocol::Udp, "1.1.1.1:53"@)]
    } else {
        known_upstreams(ups)
    }
}

/// Whether resolver settings are those of `r`, with the default timeout.
pub open spec fn resolver_settings(
    c: Seq<UpstreamConfigView>,
    r: Seq<(Protocol, Seq<char>)>,
) -> bool {
    &&& c.len() == r.len()
    &&& forall|i: int|
        0 <= i < c.len() ==> #[trigger] c[i] == (UpstreamConfigView {
            protocol: r[i].0,
            address: r[i].1,
            timeout: duration_of_secs(DEFAULT_TIMEOUT_SECS),
        })
}

/// No configured resolver has a known protocol.
#[derive(Debug, Clone, Copy, PartialEq, Eq)]
pub struct NoValidUpstreams;

impl NoValidUpstreams {
    /// The message the failure is reported with.
    pub fn to_string(&self) -> (s: String)
        ensures
            s@ == "no valid upstream resolvers configured"@,
    {
        "no valid upstream resolvers configured".to_owned()
    }
}

/// The resolvers the daemon forwards to, or an error when configured ones
/// exist but none has a known protocol.
pub fn upstream_configs(config: &Config) -> (res: Result<Vec<UpstreamConfig>, NoValidUpstreams>)
    ensures
        match res {
            Ok(v) => resolver_settings(
                v@.map_values(|u: UpstreamConfig| u@),
                daemon_upstreams(config@.upstream),
            ) && v@.len() > 0,
            Err(_) => daemon_upstreams(config@.upstream).len() == 0,
        },
{
    let ghost ups = config@.upstream;
    let mut out: Vec<UpstreamConfig> = Vec::new();
    if config.upstream.len() == 0 {
        out.push(UpstreamConfig::new(Protocol::Udp, "1.1.1.1:53"));
        assert(resolver_settings(
            out@.map_values(|u: UpstreamConfig| u@),
            daemon_upstreams(ups),
        ));
        return Ok(out);
    }
    let mut k: usize = 0;
    while k < config.upstream.len()
        invariant
            k <= config.upstream@.len(),
            ups == config@.upstream,
            ups.len() == config.upstream@.len(),
            forall|i: int| 0 <= i < ups.len() ==> #[trigger] ups[i] == config.upstream@[i]@,
            resolver_settings(
                out@.map_values(|u: UpstreamConfig| u@),
                known_upstreams(ups.subrange(0, k as int)),
            ),
        decreases config.upstream@.len() - k,
    {
        let ghost before = out@.map_values(|u: UpstreamConfig| u@);
        let u = &config.upstream[k];
        assert(ups.subrange(0, k + 1).drop_last() =~= ups.subrange(0, k as int));
        assert(ups.subrange(0, k + 1).last() == u@);
        match Protocol::parse(u.protocol.as_str()) {
            Some(p) => {
                out.push(UpstreamConfig::new(p, u.address.as_str()));
                proof {
                    let after = out@.map_values(|u: UpstreamConfig| u@);
                    let r = known_upstreams(ups.subrange(0, k + 1));
                    assert(after.len() == r.len());
                    assert forall|i: int| 0 <= i < after.len() implies #[trigger] after[i] == (
                    UpstreamConfigView {
                        protocol: r[i].0,
                        address: r[i].1,
                        timeout: duration_of_secs(DEFAULT_TIMEOUT_SECS),
                    }) by {
                        if i < before.len() {
                            assert(after[i] == before[i]);
                        }
                    }
                }
            },
            None => {
                assert(known_upstreams(ups.subrange(0, k + 1)) =~= known_upstreams(
                    ups.subrange(0, k as int),
                ));
            },
        }
        k = k + 1;
    }
    assert(ups.subrange(0, ups.len() as int) =~= ups);
    if out.len() == 0 {
        Err(NoValidUpstreams)
    } else {
        Ok(out)
    }
}

/// The cache lifetime in seconds: the configured one with the cache on,
/// zero with it off.
pub open spec fn cache_secs(c: crate::config::ConfigView) -> u64 {
    if c.cache {
        c.cache_ttl
    } else {
        0
    }
}

/// The lifetime of cached responses.
pub fn cache_ttl(config: &Config) -> (d: std::time::Duration)
    ensures
        d == duration_of_secs(cache_secs(config@)),
{
    if config.cache {
        duration_from_secs(config.cache_ttl)
    } else {
        duration_from_secs(0)
    }
}

/// Seconds in a day.
pub const SECS_PER_DAY: u64 = 86400;

/// How old, in seconds, query log entries must be to be pruned; none when
/// pruning is off (zero days).
pub fn prune_age_secs(config: &Config) -> (age: Option<u64>)
    requires
        config.prune_days * SECS_PER_DAY <= u64::MAX,
    ensures
        age == if config.prune_days > 0 {
            Some((config.prune_days * SECS_PER_DAY) as u64)
        } else {
            None::<u64>
        },
{
    if config.prune_days > 0 {
        Some(config.prune_days * SECS_PER_DAY)
    } else {
        None
    }
}

/// Whether the metrics endpoint runs: its address is not empty.
pub fn metrics_enabled(addr: &str) -> (on: bool)
    ensures
        on == (addr@.len() > 0),
{
    !addr.is_empty()
}

/// A rule list to download.
#[derive(Debug, Clone)]
pub struct Download {
    /// The list's name.
    pub name: String,
    /// Where to download it from.
    pub url: String,
    /// The file to store it in, in the rules directory.
    pub file_name: String,
}

/// Whether a list path is a URL to download from.
pub open spec fn is_remote(path: Seq<char>) -> bool {
    "http://"@.is_prefix_of(path) || "https://"@.is_prefix_of(path)
}

/// The downloads that rule lists call for, in order: one for each enabled
/// list whose path is an `http://` or `https://` URL, stored as
/// `<name>.txt`.
pub open spec fn downloads(lists: Seq<ListView>) -> Seq<(Seq<char>, Seq<char>, Seq<char>)>
    decreases lists.len(),
{
    if lists.len() == 0 {
        Seq::empty()
    } else {
        let l = lists.last();
        downloads(lists.drop_last()) + if l.enabled && is_remote(l.path) {
            seq![(l.name, l.path, l.name + ".txt"@)]
        } else {
            Seq::empty()
        }
    }
}

/// The rule lists to download.
pub fn lists_to_download(lists: &Vec<ListConfig>) -> (d: Vec<Download>)
    ensures
        d@.map_values(|x: Download| (x.name@, x.url@, x.file_name@)) == downloads(
            lists@.map_values(|l: ListConfig| l@),
        ),
{
    let ghost lv = lists@.map_values(|l: ListConfig| l@);
    let http = chars_of("http://");
    let https = chars_of("https://");
    let mut out: Vec<Download> = Vec::new();
    let mut k: usize = 0;
    while k < lists.len()
        invariant
            k <= lists@.len(),
            lv == lists@.map_values(|l: ListConfig| l@),
            http@ == "http://"@,
            https@ == "https://"@,
            out@.map_values(|x: Download| (x.name@, x.url@, x.file_name@)) == downloads(
                lv.subrange(0, k as int),
            ),
        decreases lists@.len() - k,
    {
        let l = &lists[k];
        let ghost before = out@.map_values(|x: Download| (x.name@, x.url@, x.file_name@));
        assert(lv.subrange(0, k + 1).drop_last() =~= lv.subrange(0, k as int));
        assert(lv.subrange(0, k + 1).last() == l@);
        let p = chars_of(l.path.as_str());
        let remote = starts_with_chars(p.as_slice(), http.as_slice()) || starts_with_chars(
            p.as_slice(),
            https.as_slice(),
        );
        if l.enabled && remote {
            let mut f: Vec<char> = chars_of(l.name.as_str());
            append_str(&mut f, ".txt");
            out.push(
                Download {
                    name: l.name.clone(),
                    url: l.path.clone(),
                    file_name: string_of(f.as_slice()),
                },
            );
            assert(out@.map_values(|x: Download| (x.name@, x.url@, x.file_name@)) =~= before.push(
                (l.name@, l.path@, l.name@ + ".txt"@),
            ));
        }
        k = k + 1;
        assert(out@.map_values(|x: Download| (x.name@, x.url@, x.file_name@)) =~= downloads(
            lv.subrange(0, k as int),
        ));
    }
    assert(lv.subrange(0, lv.len() as int) =~= lv);
    out
}

} // verus!
