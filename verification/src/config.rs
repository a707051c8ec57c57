//! Daemon settings: their defaults, where the settings file is looked for,
//! and how loading falls back to the defaults.
//!
//! Reading the disk is left to the caller, which hands in one function that
//! says whether a path exists and one that reads and parses a settings file.

use vstd::prelude::*;

verus! {

/// Upstream resolver configuration, as values.
pub struct UpstreamView {
    pub protocol: Seq<char>,
    pub address: Seq<char>,
}

/// Upstream resolver configuration.
#[derive(Debug, Clone)]
pub struct UpstreamConfig {
    /// Protocol: "udp", "tcp", "https", "tls"
    pub protocol: String,
    /// Server address (e.g., "1.1.1.1:53")
    pub address: String,
}

impl View for UpstreamConfig {
    type V = UpstreamView;

    open spec fn view(&self) -> UpstreamView {
        UpstreamView { protocol: self.protocol@, address: self.address@ }
    }
}

/// Rule list configuration, as values.
pub struct ListView {
    pub name: Seq<char>,
    pub path: Seq<char>,
    pub enabled: bool,
}

/// Rule list configuration.
#[derive(Debug, Clone)]
pub struct ListConfig {
    /// List name (e.g., "adblock", "tracking")
    pub name: String,
    /// Local file path or remote URL
    pub path: String,
    /// Whether this list is enabled
    pub enabled: bool,
}

impl View for ListConfig {
    type V = ListView;

    open spec fn view(&self) -> ListView {
        ListView { name: self.name@, path: self.path@, enabled: self.enabled }
    }
}

/// The settings, as values.
pub struct ConfigView {
    pub listen: Seq<char>,
    pub cache: bool,
    pub cache_ttl: u64,
    pub log_queries: bool,
    pub log_file: Option<Seq<char>>,
    pub upstream: Seq<UpstreamView>,
    pub lists_dir: Seq<char>,
    pub lists: Seq<ListView>,
    pub storage_path: Option<Seq<char>>,
    pub metrics_addr: Seq<char>,
    pub prune_days: u64,
}

/// Main configuration structure.
#[derive(Debug, Clone)]
pub struct Config {
    /// Listening address (e.g., "127.0.0.1:53")
    pub listen: String,
    /// Enable DNS response caching
    pub cache: bool,
    /// Cache TTL in seconds
    pub cache_ttl: u64,
    /// Log all DNS queries
    pub log_queries: bool,
    /// Log file path (optional)
    pub log_file: Option<String>,
    /// Upstream resolvers
    pub upstream: Vec<UpstreamConfig>,
    /// Rule list directory (default: "lists")
    pub lists_dir: String,
    /// Rule lists
    pub lists: Vec<ListConfig>,
    /// Path to query log database (empty = in-memory only)
    pub storage_path: Option<String>,
    /// Prometheus metrics listen address (empty = disabled)
    pub metrics_addr: String,
    /// Prune query log entries older than this many days (0 = never prune)
    pub prune_days: u64,
}

/// The view of an optional string.
pub open spec fn opt_view(s: Option<String>) -> Option<Seq<char>> {
    match s {
        Some(x) => Some(x@),
        None => None,
    }
}

impl View for Config {
    type V = ConfigView;

    open spec fn view(&self) -> ConfigView {
        ConfigView {
            listen: self.listen@,
            cache: self.cache,
            cache_ttl: self.cache_ttl,
            log_queries: self.log_queries,
            log_file: opt_view(self.log_file),
            upstream: self.upstream@.map_values(|u: UpstreamConfig| u@),
            lists_dir: self.lists_dir@,
            lists: self.lists@.map_values(|l: ListConfig| l@),
            storage_path: opt_view(self.storage_path),
            metrics_addr: self.metrics_addr@,
            prune_days: self.prune_days,
        }
    }
}

/// The default upstream resolver: UDP to 1.1.1.1:53.
pub open spec fn default_upstream_view() -> UpstreamView {
    UpstreamView { protocol: "udp"@, address: "1.1.1.1:53"@ }
}

/// The default settings.
pub open spec fn default_config_view() -> ConfigView {
    ConfigView {
        listen: "127.0.0.1:53"@,
        cache: true,
        cache_ttl: 300,
        log_queries: false,
        log_file: None,
        upstream: seq![default_upstream_view()],
        lists_dir: "lists"@,
        lists: Seq::empty(),
        storage_path: None,
        metrics_addr: "127.0.0.1:9120"@,
        prune_days: 0,
    }
}

/// The default listening address.
pub fn default_listen() -> (s: String)
    ensures
        s@ == "127.0.0.1:53"@,
{
    "127.0.0.1:53".to_owned()
}

/// The default of the switches that are on unless configured off.
pub fn default_true() -> (b: bool)
    ensures
        b,
{
    true
}

/// The default cache lifetime, in seconds.
pub fn default_cache_ttl() -> (ttl: u64)
    ensures
        ttl == 300,
{
    300
}

/// The default upstream resolvers: UDP to 1.1.1.1:53 alone.
pub fn default_upstream() -> (v: Vec<UpstreamConfig>)
    ensures
        v@.map_values(|u: UpstreamConfig| u@) == seq![default_upstream_view()],
{
    let mut v: Vec<UpstreamConfig> = Vec::new();
    v.push(UpstreamConfig { protocol: "udp".to_owned(), address: "1.1.1.1:53".to_owned() });
    assert(v@.map_values(|u: UpstreamConfig| u@) =~= seq![default_upstream_view()]);
    v
}

/// The default rule list directory.
pub fn default_lists_dir() -> (s: String)
    ensures
        s@ == "lists"@,
{
    "lists".to_owned()
}

/// The default metrics listening address.
pub fn default_metrics_addr() -> (s: String)
    ensures
        s@ == "127.0.0.1:9120"@,
{
    "127.0.0.1:9120".to_owned()
}

impl Default for Config {
    fn default() -> (c: Self)
        ensures
            c@ == default_config_view(),
    {
        let c = Config {
            listen: default_listen(),
            cache: true,
            cache_ttl: default_cache_ttl(),
            log_queries: false,
            log_file: None,
            upstream: default_upstream(),
            lists_dir: default_lists_dir(),
            lists: Vec::new(),
            storage_path: None,
            metrics_addr: default_metrics_addr(),
            prune_days: 0,
        };
        assert(c@.lists =~= Seq::<ListView>::empty());
        c
    }
}

/// `base` joined with the relative path `part`, as `Path::join` does on
/// Unix: a separator goes between them unless `base` is empty or already
/// ends with one.
pub open spec fn join_path(base: Seq<char>, part: Seq<char>) -> Seq<char> {
    if base.len() == 0 || base.last() == '/' {
        base + part
    } else {
        base + seq!['/'] + part
    }
}

/// The settings files looked for, in priority order: `config.toml` and
/// `dns-filter.toml` in the working directory, `.config/dns-filter/config.toml`
/// under the home directory when there is one, and
/// `/etc/dns-filter/config.toml`.
pub open spec fn candidates(home: Option<Seq<char>>) -> Seq<Seq<char>> {
    match home {
        Some(h) => seq![
            "config.toml"@,
            "dns-filter.toml"@,
            join_path(join_path(join_path(h, ".config"@), "dns-filter"@), "config.toml"@),
            "/etc/dns-filter/config.toml"@,
        ],
        None => seq!["config.toml"@, "dns-filter.toml"@, "/etc/dns-filter/config.toml"@],
    }
}

/// The view of an optional string slice.
pub open spec fn opt_str_view(s: Option<&str>) -> Option<Seq<char>> {
    match s {
        Some(x) => Some(x@),
        None => None,
    }
}

/// Whether `f`, asked about `path`, answered `answer`.
pub open spec fn answered<F: Fn(&str) -> bool>(f: F, path: Seq<char>, answer: bool) -> bool {
    exists|q: &str| q@ == path && #[trigger] call_ensures(f, (q,), answer)
}

/// Whether `found` is what searching `paths` with `present` gives: the first
/// path it said exists, after it said none of the earlier ones do, or none
/// when it said so of every path.
pub open spec fn found_by<F: Fn(&str) -> bool>(
    present: F,
    paths: Seq<Seq<char>>,
    found: Option<Seq<char>>,
) -> bool {
    match found {
        Some(p) => exists|i: int|
            #![trigger paths[i]]
            0 <= i < paths.len() && paths[i] == p && answered(present, p, true) && forall|k: int|
                0 <= k < i ==> answered(present, paths[k], false),
        None => forall|k: int| 0 <= k < paths.len() ==> answered(present, #[trigger] paths[k], false),
    }
}

/// Whether `c` is what loading the settings file `source` with `read` gives:
/// the parsed file, or the defaults when there is no file to read or reading
/// or parsing it failed.
pub open spec fn loaded_from<G: Fn(&str) -> Option<Config>>(
    read: G,
    source: Option<Seq<char>>,
    c: ConfigView,
) -> bool {
    match source {
        None => c == default_config_view(),
        Some(p) => exists|q: &str, r: Option<Config>|
            q@ == p && #[trigger] call_ensures(read, (q,), r) && c == match r {
                Some(x) => x@,
                None => default_config_view(),
            },
    }
}

fn push_path(paths: &mut Vec<String>, p: &str)
    ensures
        final(paths)@.map_values(|s: String| s@) == old(paths)@.map_values(|s: String| s@).push(p@),
{
    paths.push(p.to_owned());
    assert(final(paths)@.map_values(|s: String| s@) =~= old(paths)@.map_values(|s: String| s@).push(
        p@,
    ));
}

fn join(base: &[char], part: &str) -> (res: Vec<char>)
    ensures
        res@ == join_path(base@, part@),
{
    let mut out: Vec<char> = Vec::new();
    crate::text::append_chars(&mut out, base);
    if base.len() > 0 && base[base.len() - 1] != '/' {
        out.push('/');
    }
    crate::text::append_str(&mut out, part);
    proof {
        if base@.len() == 0 || base@.last() == '/' {
            assert(out@ =~= base@ + part@);
        } else {
            assert(out@ =~= base@ + seq!['/'] + part@);
        }
    }
    out
}

impl Config {
    /// Return all candidate config file paths in priority order, given the
    /// home directory if there is one.
    pub fn candidate_paths(home: Option<&str>) -> (paths: Vec<String>)
        ensures
            paths@.map_values(|s: String| s@) == candidates(opt_str_view(home)),
    {
        let mut paths: Vec<String> = Vec::new();
        push_path(&mut paths, "config.toml");
        push_path(&mut paths, "dns-filter.toml");
        match home {
            Some(h) => {
                let hc = crate::text::chars_of(h);
                let a = join(hc.as_slice(), ".config");
                let b = join(a.as_slice(), "dns-filter");
                let c = join(b.as_slice(), "config.toml");
                let s = crate::text::string_of(c.as_slice());
                push_path(&mut paths, s.as_str());
            },
            None => {},
        }
        push_path(&mut paths, "/etc/dns-filter/config.toml");
        assert(paths@.map_values(|s: String| s@) =~= candidates(opt_str_view(home)));
        paths
    }

    /// Find an existing config file among the candidate paths, asking
    /// `present` about each in turn.
    pub fn find<F: Fn(&str) -> bool>(home: Option<&str>, present: F) -> (res: Option<String>)
        requires
            forall|q: &str| call_requires(present, (q,)),
        ensures
            found_by(present, candidates(opt_str_view(home)), opt_view(res)),
    {
        let paths = Self::candidate_paths(home);
        let ghost cands = candidates(opt_str_view(home));
        assert(paths@.len() == cands.len());
        let mut i: usize = 0;
        while i < paths.len()
            invariant
                i <= paths@.len() == cands.len(),
                cands == candidates(opt_str_view(home)),
                forall|k: int| 0 <= k < paths@.len() ==> #[trigger] paths@[k]@ == cands[k],
                forall|k: int| 0 <= k < i ==> answered(present, #[trigger] cands[k], false),
                forall|q: &str| call_requires(present, (q,)),
            decreases paths@.len() - i,
        {
            assert(paths@[i as int]@ == cands[i as int]);
            let q = paths[i].as_str();
            let e = present(q);
            assert(answered(present, cands[i as int], e));
            if e {
                let found = paths[i].clone();
                proof {
                    let ii = i as int;
                    assert(cands[ii] == found@);
                    assert(0 <= ii < cands.len() && cands[ii] == found@ && answered(present, found@, true)
                        && forall|k: int| 0 <= k < ii ==> answered(present, cands[k], false));
                }
                return Some(found);
            }
            i = i + 1;
        }
        None
    }

    /// Load the settings file `source` with `read`, falling back to the
    /// defaults when there is none or it could not be read or parsed.
    pub fn load_from<G: Fn(&str) -> Option<Config>>(source: Option<&str>, read: G) -> (c: Config)
        requires
            forall|q: &str| call_requires(read, (q,)),
        ensures
            loaded_from(read, opt_str_view(source), c@),
    {
        match source {
            None => Config::default(),
            Some(p) => {
                let r = read(p);
                match r {
                    Some(c) => c,
                    None => Config::default(),
                }
            },
        }
    }

    /// Try to load config from common locations, falling back to defaults.
    ///
    /// If an explicit non-empty path is given, loads from that path.
    /// Otherwise searches the candidate paths with `present`.
    /// If no config file is found, or it cannot be read or parsed, returns
    /// the defaults.
    pub fn load<F: Fn(&str) -> bool, G: Fn(&str) -> Option<Config>>(
        path: Option<&str>,
        home: Option<&str>,
        present: F,
        read: G,
    ) -> (c: Config)
        requires
            forall|q: &str| call_requires(present, (q,)),
            forall|q: &str| call_requires(read, (q,)),
        ensures
            match opt_str_view(path) {
                Some(p) => p.len() > 0 ==> loaded_from(read, Some(p), c@),
                None => true,
            },
            (opt_str_view(path) is None || opt_str_view(path)->0.len() == 0) ==> exists|
                found: Option<Seq<char>>,
            |
                found_by(present, candidates(opt_str_view(home)), found) && #[trigger] loaded_from(
                    read,
                    found,
                    c@,
                ),
    {
        let explicit = match path {
            Some(p) => !p.is_empty(),
            None => false,
        };
        if explicit {
            Self::load_from(path, read)
        } else {
            let found = Self::find(home, present);
            match found {
                Some(p) => {
                    let c = Self::load_from(Some(p.as_str()), read);
                    assert(loaded_from(read, opt_view(found), c@));
                    c
                },
                None => {
                    let c = Self::load_from(None, read);
                    assert(loaded_from(read, opt_view(found), c@));
                    c
                },
            }
        }
    }
}

} // verus!
