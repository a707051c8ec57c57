//! Daemon configuration read from a small TOML subset.
//!
//! Accepted text: one `key = value` per line, `#` comments, and
//! `[[upstream]]` sections. Root keys are `listen`, `cache`,
//! `cache_ttl_seconds`, `log_queries`, `list_dir` and `upstream = []`;
//! upstream keys are `protocol` and `address`.

use vstd::prelude::*;

use crate::net::{parse_socket_addr, socket_addr_of, SocketAddress, SpecSocketAddr};
use crate::text::{
    append_chars, append_str, chars_of, decimal, decimal_chars, find_char, first_index_of,
    is_literal, is_white_space, joined_lines, lemma_first_index_at, lemma_lines_of_joined,
    no_newline, slice_chars, split_lines, string_of, text_lines, trim, trim_end, trim_start,
    trimmed, without_cr,
};
use crate::net::digits_value;

verus! {

/// Supported upstream DNS transport protocols.
#[derive(Clone, Copy, Debug, PartialEq, Eq, Structural)]
pub enum UpstreamProtocol {
    /// Plain DNS over UDP.
    Udp,
}

/// Configuration for an upstream resolver.
#[derive(Clone, Debug, PartialEq, Eq)]
pub struct UpstreamConfig {
    /// Transport protocol used by this upstream.
    pub protocol: UpstreamProtocol,
    /// Socket address of the upstream resolver.
    pub address: String,
}

/// Application configuration.
#[derive(Clone, Debug, PartialEq, Eq)]
pub struct AppConfig {
    /// Socket address the local DNS server listens on.
    pub listen: String,
    /// Enables or disables DNS response caching.
    pub cache: bool,
    /// Cache lifetime in seconds for upstream DNS responses.
    pub cache_ttl_seconds: u64,
    /// Enables query logging.
    pub log_queries: bool,
    /// Directory containing local rule lists.
    pub list_dir: String,
    /// Ordered upstream resolver definitions.
    pub upstream: Vec<UpstreamConfig>,
}

/// An upstream as values.
pub struct UpstreamView {
    pub protocol: UpstreamProtocol,
    pub address: Seq<char>,
}

/// A configuration as values.
pub struct ConfigView {
    pub listen: Seq<char>,
    pub cache: bool,
    pub cache_ttl_seconds: u64,
    pub log_queries: bool,
    pub list_dir: Seq<char>,
    pub upstream: Seq<UpstreamView>,
}

impl View for UpstreamConfig {
    type V = UpstreamView;

    open spec fn view(&self) -> UpstreamView {
        UpstreamView { protocol: self.protocol, address: self.address@ }
    }
}

impl View for AppConfig {
    type V = ConfigView;

    open spec fn view(&self) -> ConfigView {
        ConfigView {
            listen: self.listen@,
            cache: self.cache,
            cache_ttl_seconds: self.cache_ttl_seconds,
            log_queries: self.log_queries,
            list_dir: self.list_dir@,
            upstream: self.upstream@.map_values(|u: UpstreamConfig| u@),
        }
    }
}

/// Why a configuration was refused.
#[derive(Clone, Debug, PartialEq, Eq)]
pub enum ConfigError {
    /// A line is neither a section header nor `key = value`.
    InvalidAssignment { line: usize },
    /// An unknown root key.
    UnknownKey { key: String, line: usize },
    /// An upstream protocol other than `udp`.
    UnsupportedProtocol { protocol: String, line: usize },
    /// An unknown key inside an `[[upstream]]` section.
    UnknownUpstreamKey { key: String, line: usize },
    /// A value that should be a quoted string is not.
    ExpectedString { line: usize },
    /// A value that should be `true` or `false` is not.
    ExpectedBool { line: usize },
    /// A value that should be an unsigned integer is not.
    ExpectedUnsigned { line: usize },
    /// The listen address is not a socket address.
    InvalidListenAddress { address: String },
    /// The cache lifetime is zero.
    ZeroCacheTtl,
    /// The list directory is blank.
    EmptyListDir,
    /// No upstream resolver is configured.
    NoUpstream,
    /// No UDP upstream resolver is configured.
    NoUdpUpstream,
    /// An upstream address is not a socket address.
    InvalidUpstreamAddress { address: String },
}

/// A configuration error as values.
pub enum ErrorView {
    InvalidAssignment { line: usize },
    UnknownKey { key: Seq<char>, line: usize },
    UnsupportedProtocol { protocol: Seq<char>, line: usize },
    UnknownUpstreamKey { key: Seq<char>, line: usize },
    ExpectedString { line: usize },
    ExpectedBool { line: usize },
    ExpectedUnsigned { line: usize },
    InvalidListenAddress { address: Seq<char> },
    ZeroCacheTtl,
    EmptyListDir,
    NoUpstream,
    NoUdpUpstream,
    InvalidUpstreamAddress { address: Seq<char> },
}

impl View for ConfigError {
    type V = ErrorView;

    open spec fn view(&self) -> ErrorView {
        match self {
            ConfigError::InvalidAssignment { line } => ErrorView::InvalidAssignment { line: *line },
            ConfigError::UnknownKey { key, line } => ErrorView::UnknownKey { key: key@, line: *line },
            ConfigError::UnsupportedProtocol { protocol, line } => ErrorView::UnsupportedProtocol {
                protocol: protocol@,
                line: *line,
            },
            ConfigError::UnknownUpstreamKey { key, line } => ErrorView::UnknownUpstreamKey {
                key: key@,
                line: *line,
            },
            ConfigError::ExpectedString { line } => ErrorView::ExpectedString { line: *line },
            ConfigError::ExpectedBool { line } => ErrorView::ExpectedBool { line: *line },
            ConfigError::ExpectedUnsigned { line } => ErrorView::ExpectedUnsigned { line: *line },
            ConfigError::InvalidListenAddress { address } => ErrorView::InvalidListenAddress {
                address: address@,
            },
            ConfigError::ZeroCacheTtl => ErrorView::ZeroCacheTtl,
            ConfigError::EmptyListDir => ErrorView::EmptyListDir,
            ConfigError::NoUpstream => ErrorView::NoUpstream,
            ConfigError::NoUdpUpstream => ErrorView::NoUdpUpstream,
            ConfigError::InvalidUpstreamAddress { address } => ErrorView::InvalidUpstreamAddress {
                address: address@,
            },
        }
    }
}

/// The text of an error, as the daemon reports it.
pub open spec fn error_text(e: ErrorView) -> Seq<char> {
    match e {
        ErrorView::InvalidAssignment { line } => "invalid TOML assignment on line "@ + decimal(
            line as nat,
        ) + ": expected key = value"@,
        ErrorView::UnknownKey { key, line } => "unknown configuration key '"@ + key + "' on line "@
            + decimal(line as nat),
        ErrorView::UnsupportedProtocol { protocol, line } => "unsupported upstream protocol '"@
            + protocol + "' on line "@ + decimal(line as nat),
        ErrorView::UnknownUpstreamKey { key, line } => "unknown upstream configuration key '"@ + key
            + "' on line "@ + decimal(line as nat),
        ErrorView::ExpectedString { line } => "expected quoted string on line "@ + decimal(
            line as nat,
        ),
        ErrorView::ExpectedBool { line } => "expected boolean on line "@ + decimal(line as nat),
        ErrorView::ExpectedUnsigned { line } => "expected unsigned integer on line "@ + decimal(
            line as nat,
        ),
        ErrorView::InvalidListenAddress { address } => "invalid listen address '"@ + address + "'"@,
        ErrorView::ZeroCacheTtl => "cache_ttl_seconds must be greater than zero"@,
        ErrorView::EmptyListDir => "list_dir must not be empty"@,
        ErrorView::NoUpstream => "at least one upstream resolver must be configured"@,
        ErrorView::NoUdpUpstream => "at least one UDP upstream resolver must be configured"@,
        ErrorView::InvalidUpstreamAddress { address } => "invalid upstream address '"@ + address
            + "'"@,
    }
}

impl ConfigError {
    /// The text of the error.
    pub fn to_string(&self) -> (res: String)
        ensures
            res@ == error_text(self@),
    {
        let mut out: Vec<char> = Vec::new();
        match self {
            ConfigError::InvalidAssignment { line } => {
                append_str(&mut out, "invalid TOML assignment on line ");
                append_chars(&mut out, decimal_chars(*line as u64).as_slice());
                append_str(&mut out, ": expected key = value");
            },
            ConfigError::UnknownKey { key, line } => {
                append_str(&mut out, "unknown configuration key '");
                append_str(&mut out, key.as_str());
                append_str(&mut out, "' on line ");
                append_chars(&mut out, decimal_chars(*line as u64).as_slice());
            },
            ConfigError::UnsupportedProtocol { protocol, line } => {
                append_str(&mut out, "unsupported upstream protocol '");
                append_str(&mut out, protocol.as_str());
                append_str(&mut out, "' on line ");
                append_chars(&mut out, decimal_chars(*line as u64).as_slice());
            },
            ConfigError::UnknownUpstreamKey { key, line } => {
                append_str(&mut out, "unknown upstream configuration key '");
                append_str(&mut out, key.as_str());
                append_str(&mut out, "' on line ");
                append_chars(&mut out, decimal_chars(*line as u64).as_slice());
            },
            ConfigError::ExpectedString { line } => {
                append_str(&mut out, "expected quoted string on line ");
                append_chars(&mut out, decimal_chars(*line as u64).as_slice());
            },
            ConfigError::ExpectedBool { line } => {
                append_str(&mut out, "expected boolean on line ");
                append_chars(&mut out, decimal_chars(*line as u64).as_slice());
            },
            ConfigError::ExpectedUnsigned { line } => {
                append_str(&mut out, "expected unsigned integer on line ");
                append_chars(&mut out, decimal_chars(*line as u64).as_slice());
            },
            ConfigError::InvalidListenAddress { address } => {
                append_str(&mut out, "invalid listen address '");
                append_str(&mut out, address.as_str());
                append_str(&mut out, "'");
            },
            ConfigError::ZeroCacheTtl => {
                append_str(&mut out, "cache_ttl_seconds must be greater than zero");
            },
            ConfigError::EmptyListDir => {
                append_str(&mut out, "list_dir must not be empty");
            },
            ConfigError::NoUpstream => {
                append_str(&mut out, "at least one upstream resolver must be configured");
            },
            ConfigError::NoUdpUpstream => {
                append_str(&mut out, "at least one UDP upstream resolver must be configured");
            },
            ConfigError::InvalidUpstreamAddress { address } => {
                append_str(&mut out, "invalid upstream address '");
                append_str(&mut out, address.as_str());
                append_str(&mut out, "'");
            },
        }
        string_of(out.as_slice())
    }
}

/// The default upstream: UDP to 1.1.1.1:53.
pub open spec fn default_upstream_view() -> UpstreamView {
    UpstreamView { protocol: UpstreamProtocol::Udp, address: "1.1.1.1:53"@ }
}

/// The default configuration.
pub open spec fn default_config_view() -> ConfigView {
    ConfigView {
        listen: "127.0.0.1:5353"@,
        cache: true,
        cache_ttl_seconds: 300,
        log_queries: true,
        list_dir: "lists"@,
        upstream: seq![default_upstream_view()],
    }
}

impl Default for UpstreamConfig {
    fn default() -> (r: Self)
        ensures
            r@ == default_upstream_view(),
    {
        UpstreamConfig { protocol: UpstreamProtocol::Udp, address: "1.1.1.1:53".to_owned() }
    }
}

impl Default for AppConfig {
    fn default() -> (r: Self)
        ensures
            r@ == default_config_view(),
    {
        let mut upstream: Vec<UpstreamConfig> = Vec::new();
        upstream.push(UpstreamConfig::default());
        let r = AppConfig {
            listen: "127.0.0.1:5353".to_owned(),
            cache: true,
            cache_ttl_seconds: 300,
            log_queries: true,
            list_dir: "lists".to_owned(),
            upstream,
        };
        assert(r@.upstream =~= seq![default_upstream_view()]);
        r
    }
}

/// Where the comment of a line starts, scanning from `i` in `state`: the
/// first `#` outside a string, or the end of the line. `state` is 0 outside
/// strings, 1 inside a basic string `"..."` (where a backslash escapes the
/// next character) and 2 inside a literal string `'...'`, as in TOML.
pub open spec fn comment_start(line: Seq<char>, i: int, state: u8) -> int
    decreases line.len() - i,
{
    if i < 0 || i >= line.len() {
        line.len() as int
    } else {
        let c = line[i];
        if state == 1 {
            if c == '\\' && i + 1 < line.len() {
                comment_start(line, i + 2, 1)
            } else if c == '"' {
                comment_start(line, i + 1, 0)
            } else {
                comment_start(line, i + 1, 1)
            }
        } else if state == 2 {
            if c == '\'' {
                comment_start(line, i + 1, 0)
            } else {
                comment_start(line, i + 1, 2)
            }
        } else if c == '#' {
            i
        } else if c == '"' {
            comment_start(line, i + 1, 1)
        } else if c == '\'' {
            comment_start(line, i + 1, 2)
        } else {
            comment_start(line, i + 1, 0)
        }
    }
}

/// The part of a line before its comment: before the first `#` that stands
/// outside a quoted string.
pub open spec fn strip_comment(line: Seq<char>) -> Seq<char> {
    line.subrange(0, comment_start(line, 0, 0))
}

/// Where the comment of a line starts, as `comment_start` from the line's
/// beginning says.
fn comment_cut(line: &[char]) -> (cut: usize)
    ensures
        cut as int == comment_start(line@, 0, 0),
        cut <= line@.len(),
{
    let n = line.len();
    let mut i: usize = 0;
    let mut state: u8 = 0;
    while i < n
        invariant
            n == line@.len(),
            i <= n,
            state <= 2,
            comment_start(line@, 0, 0) == comment_start(line@, i as int, state),
        decreases n - i,
    {
        let c = line[i];
        if state == 1 {
            if c == '\\' && i + 1 < n {
                i = i + 2;
            } else {
                if c == '"' {
                    state = 0;
                }
                i = i + 1;
            }
        } else if state == 2 {
            if c == '\'' {
                state = 0;
            }
            i = i + 1;
        } else {
            if c == '#' {
                return i;
            }
            if c == '"' {
                state = 1;
            } else if c == '\'' {
                state = 2;
            }
            i = i + 1;
        }
    }
    n
}

/// The contents of a quoted string value.
pub open spec fn quoted(value: Seq<char>) -> Option<Seq<char>> {
    if value.len() >= 2 && value[0] == '"' && value.last() == '"' {
        Some(value.subrange(1, value.len() - 1))
    } else {
        None
    }
}

/// A boolean value.
pub open spec fn boolean(value: Seq<char>) -> Option<bool> {
    if value == "true"@ {
        Some(true)
    } else if value == "false"@ {
        Some(false)
    } else {
        None
    }
}

/// Whether every character of `d` is a decimal digit.
pub open spec fn all_decimal(d: Seq<char>) -> bool {
    forall|k: int| 0 <= k < d.len() ==> '0' <= #[trigger] d[k] && d[k] <= '9'
}

/// An unsigned 64-bit value: an optional `+` and at least one decimal digit.
pub open spec fn unsigned(value: Seq<char>) -> Option<u64> {
    let digits = if value.len() > 0 && value[0] == '+' {
        value.drop_first()
    } else {
        value
    };
    if digits.len() > 0 && all_decimal(digits) && digits_value(digits, 10) <= u64::MAX {
        Some(digits_value(digits, 10) as u64)
    } else {
        None
    }
}

/// The state of a parse between lines.
pub struct ParseState {
    pub config: ConfigView,
    pub upstreams: Seq<UpstreamView>,
    pub current: Option<UpstreamView>,
    pub saw_upstream: bool,
}

/// The configuration that parsing starts from.
pub open spec fn initial_state() -> ParseState {
    ParseState {
        config: default_config_view(),
        upstreams: Seq::empty(),
        current: None,
        saw_upstream: false,
    }
}

/// A root `key = value` applied to the configuration.
pub open spec fn root_field(st: ParseState, key: Seq<char>, value: Seq<char>, n: usize) -> Result<
    ParseState,
    ErrorView,
> {
    let c = st.config;
    if key == "listen"@ {
        match quoted(value) {
            Some(v) => Ok(ParseState { config: ConfigView { listen: v, ..c }, ..st }),
            None => Err(ErrorView::ExpectedString { line: n }),
        }
    } else if key == "cache"@ {
        match boolean(value) {
            Some(b) => Ok(ParseState { config: ConfigView { cache: b, ..c }, ..st }),
            None => Err(ErrorView::ExpectedBool { line: n }),
        }
    } else if key == "cache_ttl_seconds"@ {
        match unsigned(value) {
            Some(t) => Ok(ParseState { config: ConfigView { cache_ttl_seconds: t, ..c }, ..st }),
            None => Err(ErrorView::ExpectedUnsigned { line: n }),
        }
    } else if key == "log_queries"@ {
        match boolean(value) {
            Some(b) => Ok(ParseState { config: ConfigView { log_queries: b, ..c }, ..st }),
            None => Err(ErrorView::ExpectedBool { line: n }),
        }
    } else if key == "list_dir"@ {
        match quoted(value) {
            Some(v) => Ok(ParseState { config: ConfigView { list_dir: v, ..c }, ..st }),
            None => Err(ErrorView::ExpectedString { line: n }),
        }
    } else if key == "upstream"@ && value == "[]"@ {
        Ok(
            ParseState {
                config: ConfigView { upstream: Seq::empty(), ..c },
                upstreams: Seq::empty(),
                ..st
            },
        )
    } else {
        Err(ErrorView::UnknownKey { key, line: n })
    }
}

/// An upstream `key = value` applied to the upstream being read.
pub open spec fn upstream_field(u: UpstreamView, key: Seq<char>, value: Seq<char>, n: usize) -> Result<
    UpstreamView,
    ErrorView,
> {
    if key == "protocol"@ {
        match quoted(value) {
            Some(p) => if p == "udp"@ {
                Ok(UpstreamView { protocol: UpstreamProtocol::Udp, ..u })
            } else {
                Err(ErrorView::UnsupportedProtocol { protocol: p, line: n })
            },
            None => Err(ErrorView::ExpectedString { line: n }),
        }
    } else if key == "address"@ {
        match quoted(value) {
            Some(a) => Ok(UpstreamView { address: a, ..u }),
            None => Err(ErrorView::ExpectedString { line: n }),
        }
    } else {
        Err(ErrorView::UnknownUpstreamKey { key, line: n })
    }
}

/// One raw line, numbered `n`, applied to the parse state.
pub open spec fn apply_line(st: ParseState, raw: Seq<char>, n: usize) -> Result<ParseState, ErrorView> {
    let line = trim(strip_comment(raw));
    if line.len() == 0 {
        Ok(st)
    } else if line == "[[upstream]]"@ {
        Ok(
            ParseState {
                upstreams: match st.current {
                    Some(u) => st.upstreams.push(u),
                    None => st.upstreams,
                },
                current: Some(default_upstream_view()),
                saw_upstream: true,
                ..st
            },
        )
    } else {
        match first_index_of(line, '=') {
            None => Err(ErrorView::InvalidAssignment { line: n }),
            Some(i) => {
                let key = trim(line.subrange(0, i));
                let value = trim(line.subrange(i + 1, line.len() as int));
                match st.current {
                    Some(u) => match upstream_field(u, key, value, n) {
                        Ok(u2) => Ok(ParseState { current: Some(u2), ..st }),
                        Err(e) => Err(e),
                    },
                    None => root_field(st, key, value, n),
                }
            },
        }
    }
}

/// The first `k` lines applied in order, numbered from 1.
pub open spec fn apply_lines(lines: Seq<Seq<char>>, k: int) -> Result<ParseState, ErrorView>
    decreases k,
{
    if k <= 0 {
        Ok(initial_state())
    } else {
        match apply_lines(lines, k - 1) {
            Ok(st) => apply_line(st, lines[k - 1], k as usize),
            Err(e) => Err(e),
        }
    }
}

/// The configuration that the text writes, before validation.
pub open spec fn parse_config(content: Seq<char>) -> Result<ConfigView, ErrorView> {
    let lines = text_lines(content);
    match apply_lines(lines, lines.len() as int) {
        Ok(st) => {
            let ups = match st.current {
                Some(u) => st.upstreams.push(u),
                None => st.upstreams,
            };
            if st.saw_upstream {
                Ok(ConfigView { upstream: ups, ..st.config })
            } else {
                Ok(st.config)
            }
        },
        Err(e) => Err(e),
    }
}

/// The index of the first UDP upstream.
pub open spec fn first_udp(ups: Seq<UpstreamView>) -> Option<int> {
    if exists|i: int| 0 <= i < ups.len() && ups[i].protocol == UpstreamProtocol::Udp {
        Some(
            choose|i: int|
                0 <= i < ups.len() && ups[i].protocol == UpstreamProtocol::Udp && forall|k: int|
                    0 <= k < i ==> ups[k].protocol != UpstreamProtocol::Udp,
        )
    } else {
        None
    }
}

/// The address of the first UDP upstream, or why there is none.
pub open spec fn first_udp_addr(c: ConfigView) -> Result<SpecSocketAddr, ErrorView> {
    match first_udp(c.upstream) {
        None => Err(ErrorView::NoUdpUpstream),
        Some(i) => match socket_addr_of(c.upstream[i].address) {
            Some(a) => Ok(a),
            None => Err(ErrorView::InvalidUpstreamAddress { address: c.upstream[i].address }),
        },
    }
}

/// The first rule a configuration breaks, if any.
pub open spec fn validation(c: ConfigView) -> Option<ErrorView> {
    if socket_addr_of(c.listen) is None {
        Some(ErrorView::InvalidListenAddress { address: c.listen })
    } else if c.cache_ttl_seconds == 0 {
        Some(ErrorView::ZeroCacheTtl)
    } else if trim(c.list_dir).len() == 0 {
        Some(ErrorView::EmptyListDir)
    } else if c.upstream.len() == 0 {
        Some(ErrorView::NoUpstream)
    } else {
        match first_udp_addr(c) {
            Err(e) => Some(e),
            Ok(_) => None,
        }
    }
}

/// The configuration that a TOML text gives, or why it gives none.
pub open spec fn config_from_toml(content: Seq<char>) -> Result<ConfigView, ErrorView> {
    match parse_config(content) {
        Ok(c) => match validation(c) {
            None => Ok(c),
            Some(e) => Err(e),
        },
        Err(e) => Err(e),
    }
}

/// What `Duration::from_secs` returns for a number of seconds.
pub uninterp spec fn duration_of_secs(secs: u64) -> std::time::Duration;

/// `Duration::from_secs`: the same seconds give the same duration, which
/// `Duration::as_nanos` counts as a billion nanoseconds a second.
#[verifier::external_body]
pub(crate) fn duration_from_secs(secs: u64) -> (d: std::time::Duration)
    ensures
        d == duration_of_secs(secs),
        crate::cache::duration_nanos(d) == secs as nat * 1_000_000_000,
{
    std::time::Duration::from_secs(secs)
}


/// A parse between lines.
struct Parser {
    config: AppConfig,
    upstreams: Vec<UpstreamConfig>,
    current: Option<UpstreamConfig>,
    saw_upstream: bool,
}

impl Parser {
    spec fn state(&self) -> ParseState {
        ParseState {
            config: self.config@,
            upstreams: self.upstreams@.map_values(|u: UpstreamConfig| u@),
            current: match self.current {
                Some(u) => Some(u@),
                None => None,
            },
            saw_upstream: self.saw_upstream,
        }
    }
}

/// The contents of a quoted value.
fn quoted_value(value: &[char]) -> (res: Option<Vec<char>>)
    ensures
        match quoted(value@) {
            Some(v) => res matches Some(r) && r@ == v,
            None => res is None,
        },
{
    if value.len() >= 2 && value[0] == '"' && value[value.len() - 1] == '"' {
        Some(slice_chars(value, 1, value.len() - 1))
    } else {
        None
    }
}

fn boolean_value(value: &[char]) -> (res: Option<bool>)
    ensures
        res == boolean(value@),
{
    if is_literal(value, "true") {
        Some(true)
    } else if is_literal(value, "false") {
        Some(false)
    } else {
        None
    }
}

proof fn lemma_prefix_value_le(d: Seq<char>, j: int)
    requires
        0 <= j <= d.len(),
        all_decimal(d),
    ensures
        digits_value(d.subrange(0, j), 10) <= digits_value(d, 10),
    decreases d.len(),
{
    if j == d.len() {
        assert(d.subrange(0, j) =~= d);
    } else {
        let p = d.drop_last();
        assert(p.subrange(0, j) =~= d.subrange(0, j));
        lemma_prefix_value_le(p, j);
        let a = digits_value(p, 10);
        let b = crate::net::digit_value(d.last(), 10).unwrap();
        assert(a * 10 + b >= a) by (nonlinear_arith);
    }
}

fn unsigned_value(value: &[char]) -> (res: Option<u64>)
    ensures
        res == unsigned(value@),
{
    let start: usize = if value.len() > 0 && value[0] == '+' {
        1
    } else {
        0
    };
    let ghost digits = value@.subrange(start as int, value@.len() as int);
    proof {
        if value@.len() > 0 && value@[0] == '+' {
            assert(digits =~= value@.drop_first());
        } else {
            assert(digits =~= value@);
        }
    }
    if start >= value.len() {
        return None;
    }
    let mut k = start;
    while k < value.len()
        invariant
            start <= k <= value@.len(),
            start < value@.len(),
            digits == value@.subrange(start as int, value@.len() as int),
            digits == (if value@.len() > 0 && value@[0] == '+' {
                value@.drop_first()
            } else {
                value@
            }),
            forall|m: int| start <= m < k ==> '0' <= #[trigger] value@[m] && value@[m] <= '9',
        decreases value@.len() - k,
    {
        if !('0' <= value[k] && value[k] <= '9') {
            assert(digits[k - start] == value@[k as int]);
            assert(!all_decimal(digits));
            assert(unsigned(value@) is None);
            return None;
        }
        k = k + 1;
    }
    assert(all_decimal(digits)) by {
        assert forall|m: int| 0 <= m < digits.len() implies '0' <= #[trigger] digits[m] && digits[m]
            <= '9' by {
            assert(digits[m] == value@[m + start]);
        }
    }
    let mut v: u64 = 0;
    let mut k = start;
    while k < value.len()
        invariant
            start <= k <= value@.len(),
            all_decimal(digits),
            digits == value@.subrange(start as int, value@.len() as int),
            digits == (if value@.len() > 0 && value@[0] == '+' {
                value@.drop_first()
            } else {
                value@
            }),
            v as nat == digits_value(value@.subrange(start as int, k as int), 10),
        decreases value@.len() - k,
    {
        let ghost prev = value@.subrange(start as int, k as int);
        let ghost next = value@.subrange(start as int, k + 1);
        assert(next.drop_last() =~= prev);
        assert(next.last() == digits[k - start]);
        let d = value[k] as u64 - '0' as u64;
        assert(digits_value(next, 10) == digits_value(prev, 10) * 10 + d);
        match v.checked_mul(10) {
            None => {
                proof {
                    assert(next =~= digits.subrange(0, k + 1 - start));
                    lemma_prefix_value_le(digits, k + 1 - start);
                    assert(v * 10 > u64::MAX);
                    assert(digits_value(digits, 10) > u64::MAX);
                    assert(unsigned(value@) is None);
                }
                return None;
            },
            Some(t) => match t.checked_add(d) {
                None => {
                    proof {
                        assert(next =~= digits.subrange(0, k + 1 - start));
                        lemma_prefix_value_le(digits, k + 1 - start);
                        assert(digits_value(digits, 10) > u64::MAX);
                        assert(unsigned(value@) is None);
                    }
                    return None;
                },
                Some(nv) => {
                    v = nv;
                },
            },
        }
        k = k + 1;
    }
    assert(value@.subrange(start as int, k as int) =~= digits);
    Some(v)
}

/// Applies a root `key = value` to the parse.
fn apply_root_field(p: &mut Parser, key: &[char], value: &[char], n: usize) -> (res: Result<
    (),
    ConfigError,
>)
    requires
        old(p).current is None,
    ensures
        match root_field(old(p).state(), key@, value@, n) {
            Ok(st) => res is Ok && final(p).state() == st,
            Err(e) => res matches Err(x) && x@ == e,
        },
{
    if is_literal(key, "listen") {
        match quoted_value(value) {
            Some(v) => {
                p.config.listen = string_of(v.as_slice());
                Ok(())
            },
            None => Err(ConfigError::ExpectedString { line: n }),
        }
    } else if is_literal(key, "cache") {
        match boolean_value(value) {
            Some(b) => {
                p.config.cache = b;
                Ok(())
            },
            None => Err(ConfigError::ExpectedBool { line: n }),
        }
    } else if is_literal(key, "cache_ttl_seconds") {
        match unsigned_value(value) {
            Some(t) => {
                p.config.cache_ttl_seconds = t;
                Ok(())
            },
            None => Err(ConfigError::ExpectedUnsigned { line: n }),
        }
    } else if is_literal(key, "log_queries") {
        match boolean_value(value) {
            Some(b) => {
                p.config.log_queries = b;
                Ok(())
            },
            None => Err(ConfigError::ExpectedBool { line: n }),
        }
    } else if is_literal(key, "list_dir") {
        match quoted_value(value) {
            Some(v) => {
                p.config.list_dir = string_of(v.as_slice());
                Ok(())
            },
            None => Err(ConfigError::ExpectedString { line: n }),
        }
    } else if is_literal(key, "upstream") && is_literal(value, "[]") {
        p.upstreams = Vec::new();
        p.config.upstream = Vec::new();
        assert(p.state().upstreams =~= Seq::<UpstreamView>::empty());
        assert(p.state().config.upstream =~= Seq::<UpstreamView>::empty());
        Ok(())
    } else {
        Err(ConfigError::UnknownKey { key: string_of(key), line: n })
    }
}

/// Applies an upstream `key = value` to the upstream being read.
fn apply_upstream_field(u: &mut UpstreamConfig, key: &[char], value: &[char], n: usize) -> (res:
    Result<(), ConfigError>)
    ensures
        match upstream_field(old(u)@, key@, value@, n) {
            Ok(v) => res is Ok && final(u)@ == v,
            Err(e) => res matches Err(x) && x@ == e,
        },
{
    if is_literal(key, "protocol") {
        match quoted_value(value) {
            Some(pv) => {
                if is_literal(pv.as_slice(), "udp") {
                    u.protocol = UpstreamProtocol::Udp;
                    Ok(())
                } else {
                    Err(ConfigError::UnsupportedProtocol { protocol: string_of(pv.as_slice()), line: n })
                }
            },
            None => Err(ConfigError::ExpectedString { line: n }),
        }
    } else if is_literal(key, "address") {
        match quoted_value(value) {
            Some(a) => {
                u.address = string_of(a.as_slice());
                Ok(())
            },
            None => Err(ConfigError::ExpectedString { line: n }),
        }
    } else {
        Err(ConfigError::UnknownUpstreamKey { key: string_of(key), line: n })
    }
}

/// Applies one raw line, numbered `n`, to the parse.
fn apply_raw_line(p: &mut Parser, raw: &[char], n: usize) -> (res: Result<(), ConfigError>)
    ensures
        match apply_line(old(p).state(), raw@, n) {
            Ok(st) => res is Ok && final(p).state() == st,
            Err(e) => res matches Err(x) && x@ == e,
        },
{
    let before = slice_chars(raw, 0, comment_cut(raw));
    assert(before@ =~= strip_comment(raw@));
    let line = trimmed(before.as_slice());
    if line.len() == 0 {
        return Ok(());
    }
    if is_literal(line.as_slice(), "[[upstream]]") {
        let ghost st0 = p.state();
        p.saw_upstream = true;
        let cur = p.current.take();
        match cur {
            Some(u) => {
                p.upstreams.push(u);
            },
            None => {},
        }
        p.current = Some(UpstreamConfig::default());
        assert(p.state().upstreams =~= (match st0.current {
            Some(u) => st0.upstreams.push(u),
            None => st0.upstreams,
        }));
        return Ok(());
    }
    match find_char(line.as_slice(), '=') {
        None => Err(ConfigError::InvalidAssignment { line: n }),
        Some(i) => {
            let k0 = slice_chars(line.as_slice(), 0, i);
            let v0 = slice_chars(line.as_slice(), i + 1, line.len());
            let key = trimmed(k0.as_slice());
            let value = trimmed(v0.as_slice());
            match p.current.take() {
                Some(mut u) => {
                    let r = apply_upstream_field(&mut u, key.as_slice(), value.as_slice(), n);
                    p.current = Some(u);
                    r
                },
                None => apply_root_field(p, key.as_slice(), value.as_slice(), n),
            }
        },
    }
}

/// Once a line is refused, the whole text is refused with its error.
proof fn lemma_apply_lines_err(lines: Seq<Seq<char>>, k: int, j: int)
    requires
        1 <= k <= j,
        apply_lines(lines, k) is Err,
    ensures
        apply_lines(lines, j) == apply_lines(lines, k),
    decreases j - k,
{
    if j > k {
        lemma_apply_lines_err(lines, k, j - 1);
    }
}

/// The configuration a text writes, before validation.
pub fn parse_toml_config(content: &str) -> (res: Result<AppConfig, ConfigError>)
    ensures
        match parse_config(content@) {
            Ok(c) => res matches Ok(x) && x@ == c,
            Err(e) => res matches Err(x) && x@ == e,
        },
{
    let cs = chars_of(content);
    let lines = split_lines(cs.as_slice());
    let ghost lv = lines@.map_values(|l: Vec<char>| l@);
    let mut p = Parser {
        config: AppConfig::default(),
        upstreams: Vec::new(),
        current: None,
        saw_upstream: false,
    };
    assert(p.state().upstreams =~= Seq::<UpstreamView>::empty());
    let mut k: usize = 0;
    while k < lines.len()
        invariant
            k <= lines@.len(),
            lv == text_lines(content@),
            lv == lines@.map_values(|l: Vec<char>| l@),
            apply_lines(lv, k as int) == Ok::<ParseState, ErrorView>(p.state()),
        decreases lines@.len() - k,
    {
        assert(lv[k as int] == lines@[k as int]@);
        match apply_raw_line(&mut p, lines[k].as_slice(), k + 1) {
            Ok(()) => {},
            Err(e) => {
                proof {
                    lemma_apply_lines_err(lv, k as int + 1, lv.len() as int);
                }
                return Err(e);
            },
        }
        k = k + 1;
    }
    let ghost st = p.state();
    match p.current.take() {
        Some(u) => {
            p.upstreams.push(u);
        },
        None => {},
    }
    if p.saw_upstream {
        p.config.upstream = p.upstreams;
    }
    proof {
        let ups = match st.current {
            Some(u) => st.upstreams.push(u),
            None => st.upstreams,
        };
        if st.saw_upstream {
            assert(p.config@.upstream =~= ups);
        }
    }
    Ok(p.config)
}

impl UpstreamConfig {
    /// Returns the validated upstream socket address.
    pub fn socket_addr(&self) -> (res: Result<SocketAddress, ConfigError>)
        ensures
            match socket_addr_of(self.address@) {
                Some(a) => res matches Ok(x) && x@ == a,
                None => res matches Err(e) && e@ == ErrorView::InvalidUpstreamAddress {
                    address: self.address@,
                },
            },
    {
        let cs = chars_of(self.address.as_str());
        match parse_socket_addr(cs.as_slice()) {
            Some(a) => Ok(a),
            None => Err(ConfigError::InvalidUpstreamAddress { address: self.address.clone() }),
        }
    }
}

impl AppConfig {
    /// Parses application configuration from TOML text.
    pub fn from_toml(content: &str) -> (res: Result<AppConfig, ConfigError>)
        ensures
            match config_from_toml(content@) {
                Ok(c) => res matches Ok(x) && x@ == c,
                Err(e) => res matches Err(x) && x@ == e,
            },
    {
        let config = parse_toml_config(content)?;
        config.validate()?;
        Ok(config)
    }

    /// Returns the validated listen socket address.
    pub fn listen_addr(&self) -> (res: Result<SocketAddress, ConfigError>)
        ensures
            match socket_addr_of(self.listen@) {
                Some(a) => res matches Ok(x) && x@ == a,
                None => res matches Err(e) && e@ == ErrorView::InvalidListenAddress {
                    address: self.listen@,
                },
            },
    {
        let cs = chars_of(self.listen.as_str());
        match parse_socket_addr(cs.as_slice()) {
            Some(a) => Ok(a),
            None => Err(ConfigError::InvalidListenAddress { address: self.listen.clone() }),
        }
    }

    /// Returns the cache TTL as a duration.
    pub fn cache_ttl(&self) -> (d: std::time::Duration)
        ensures
            d == duration_of_secs(self.cache_ttl_seconds),
    {
        duration_from_secs(self.cache_ttl_seconds)
    }

    /// Returns the first UDP upstream address.
    pub fn first_udp_upstream_addr(&self) -> (res: Result<SocketAddress, ConfigError>)
        ensures
            match first_udp_addr(self@) {
                Ok(a) => res matches Ok(x) && x@ == a,
                Err(e) => res matches Err(x) && x@ == e,
            },
    {
        let mut k: usize = 0;
        while k < self.upstream.len()
            invariant
                k <= self.upstream@.len(),
                forall|m: int|
                    0 <= m < k ==> self@.upstream[m].protocol != UpstreamProtocol::Udp,
            decreases self.upstream@.len() - k,
        {
            if self.upstream[k].protocol == UpstreamProtocol::Udp {
                proof {
                    let ups = self@.upstream;
                    assert(ups[k as int].protocol == UpstreamProtocol::Udp);
                    let j = choose|j: int|
                        0 <= j < ups.len() && ups[j].protocol == UpstreamProtocol::Udp && forall|
                            m: int,
                        | 0 <= m < j ==> ups[m].protocol != UpstreamProtocol::Udp;
                    if j < k {
                    } else if j > k {
                        assert(ups[k as int].protocol != UpstreamProtocol::Udp);
                    }
                }
                return self.upstream[k].socket_addr();
            }
            k = k + 1;
        }
        Err(ConfigError::NoUdpUpstream)
    }

    /// Checks the rules a configuration must meet.
    pub fn validate(&self) -> (res: Result<(), ConfigError>)
        ensures
            match validation(self@) {
                None => res is Ok,
                Some(e) => res matches Err(x) && x@ == e,
            },
    {
        self.listen_addr()?;
        if self.cache_ttl_seconds == 0 {
            return Err(ConfigError::ZeroCacheTtl);
        }
        let dir = chars_of(self.list_dir.as_str());
        if trimmed(dir.as_slice()).len() == 0 {
            return Err(ConfigError::EmptyListDir);
        }
        if self.upstream.len() == 0 {
            return Err(ConfigError::NoUpstream);
        }
        self.first_udp_upstream_addr()?;
        Ok(())
    }
}


/// The line `key = "value"`.
pub open spec fn assignment_line(key: Seq<char>, value: Seq<char>) -> Seq<char> {
    key + seq![' ', '=', ' ', '"'] + value + seq!['"']
}

/// Whether a text can stand inside a basic string as it is: it holds no
/// quote, backslash or newline.
pub open spec fn plain_string(a: Seq<char>) -> bool {
    forall|k: int| 0 <= k < a.len() ==> a[k] != '"' && a[k] != '\\' && a[k] != '\n'
}

/// The lines of one `[[upstream]]` section for each address, each naming a
/// UDP resolver at that address.
pub open spec fn udp_section_lines(addrs: Seq<Seq<char>>) -> Seq<Seq<char>>
    decreases addrs.len(),
{
    if addrs.len() == 0 {
        Seq::empty()
    } else {
        udp_section_lines(addrs.drop_last()) + seq![
            "[[upstream]]"@,
            assignment_line("protocol"@, "udp"@),
            assignment_line("address"@, addrs.last()),
        ]
    }
}

/// UDP upstreams at the addresses, in order.
pub open spec fn udp_upstreams(addrs: Seq<Seq<char>>) -> Seq<UpstreamView> {
    addrs.map_values(|a: Seq<char>| UpstreamView { protocol: UpstreamProtocol::Udp, address: a })
}

/// Outside strings, characters other than `#` and quotes leave the comment
/// scan where it was.
proof fn lemma_comment_plain(line: Seq<char>, i: int, j: int)
    requires
        0 <= i <= j <= line.len(),
        forall|k: int|
            i <= k < j ==> line[k] != '#' && line[k] != '"' && line[k] != '\'',
    ensures
        comment_start(line, i, 0) == comment_start(line, j, 0),
    decreases j - i,
{
    if i < j {
        lemma_comment_plain(line, i + 1, j);
    }
}

/// Inside a basic string, characters other than quotes and backslashes
/// leave the comment scan where it was.
proof fn lemma_comment_in_string(line: Seq<char>, i: int, j: int)
    requires
        0 <= i <= j <= line.len(),
        forall|k: int| i <= k < j ==> line[k] != '"' && line[k] != '\\',
    ensures
        comment_start(line, i, 1) == comment_start(line, j, 1),
    decreases j - i,
{
    if i < j {
        lemma_comment_in_string(line, i + 1, j);
    }
}

/// A text that starts and ends with other than white space is its own trim.
proof fn lemma_trim_unchanged(s: Seq<char>)
    requires
        s.len() > 0,
        !is_white_space(s[0]),
        !is_white_space(s.last()),
    ensures
        trim(s) == s,
{
    assert(trim_start(s) == s);
}

/// How a line `key = "value"` is read: it has no comment, the key is what
/// stands before the `=`, and the value is the quoted text.
#[verifier::spinoff_prover]
proof fn lemma_assignment_read(key: Seq<char>, value: Seq<char>)
    requires
        key.len() > 0,
        forall|k: int|
            0 <= k < key.len() ==> !is_white_space(#[trigger] key[k]) && key[k] != '=' && key[k]
                != '#' && key[k] != '"' && key[k] != '\'',
        plain_string(value),
    ensures
        ({
            let line = assignment_line(key, value);
            let i = key.len() + 1int;
            &&& trim(strip_comment(line)) == line
            &&& line.len() > 0
            &&& line.last() == '"'
            &&& first_index_of(line, '=') == Some(i)
            &&& trim(line.subrange(0, i)) == key
            &&& quoted(trim(line.subrange(i + 1, line.len() as int))) == Some(value)
        }),
{
    let line = assignment_line(key, value);
    let kl = key.len() as int;
    let vl = value.len() as int;
    assert(line.len() == kl + vl + 5);
    assert forall|k: int| 0 <= k < kl implies line[k] == key[k] by {}
    assert forall|k: int| 0 <= k < vl implies line[kl + 4 + k] == value[k] by {}
    assert(line[kl] == ' ' && line[kl + 1] == '=' && line[kl + 2] == ' ' && line[kl + 3] == '"');
    assert(line[kl + 4 + vl] == '"');
    assert forall|k: int| 0 <= k < kl + 3 implies line[k] != '#' && line[k] != '"' && line[k]
        != '\'' by {
        if k < kl {
            assert(line[k] == key[k]);
        }
    }
    lemma_comment_plain(line, 0, kl + 3);
    assert forall|k: int| kl + 4 <= k < kl + 4 + vl implies line[k] != '"' && line[k] != '\\' by {
        assert(line[k] == value[k - kl - 4]);
    }
    lemma_comment_in_string(line, kl + 4, kl + 4 + vl);
    assert(comment_start(line, kl + 3, 0) == comment_start(line, kl + 4, 1));
    assert(comment_start(line, kl + 4 + vl, 1) == comment_start(line, kl + 5 + vl, 0));
    assert(comment_start(line, 0, 0) == line.len());
    assert(strip_comment(line) =~= line);
    assert(line[0] == key[0]);
    lemma_trim_unchanged(line);
    assert forall|k: int| 0 <= k < kl + 1 implies line[k] != '=' by {
        if k < kl {
            assert(line[k] == key[k]);
        }
    }
    lemma_first_index_at(line, '=', kl + 1);
    let left = line.subrange(0, kl + 1);
    assert(left.drop_last() =~= key);
    assert(trim_start(left) == left);
    assert(trim_end(left) == trim_end(key));
    assert(trim_end(key) == key);
    let right = line.subrange(kl + 2, line.len() as int);
    let inner = right.drop_first();
    assert(inner =~= seq!['"'] + value + seq!['"']);
    assert(trim_start(right) == trim_start(inner));
    assert(trim_start(inner) == inner);
    assert(trim_end(inner) == inner);
    assert(inner.subrange(1, inner.len() - 1) =~= value);
}

/// Applying the lines of `[[upstream]]` sections, one for each address:
/// the sections before the last are the upstreams read so far, and the last
/// one is being read.
#[verifier::spinoff_prover]
proof fn lemma_apply_sections(addrs: Seq<Seq<char>>)
    requires
        addrs.len() > 0,
        forall|i: int| 0 <= i < addrs.len() ==> plain_string(#[trigger] addrs[i]),
    ensures
        udp_section_lines(addrs).len() == 3 * addrs.len(),
        apply_lines(udp_section_lines(addrs), 3 * addrs.len() as int) == Ok::<ParseState, ErrorView>(
            ParseState {
                config: default_config_view(),
                upstreams: udp_upstreams(addrs.drop_last()),
                current: Some(
                    UpstreamView { protocol: UpstreamProtocol::Udp, address: addrs.last() },
                ),
                saw_upstream: true,
            },
        ),
    decreases addrs.len(),
{
    let init = addrs.drop_last();
    let a = addrs.last();
    let prev = udp_section_lines(init);
    let lines = udp_section_lines(addrs);
    let header = "[[upstream]]"@;
    let proto = assignment_line("protocol"@, "udp"@);
    let addr = assignment_line("address"@, a);
    assert(lines == prev + seq![header, proto, addr]);
    let m = prev.len() as int;
    reveal_strlit("[[upstream]]");
    reveal_strlit("protocol");
    reveal_strlit("address");
    reveal_strlit("udp");
    let st = if init.len() == 0 {
        initial_state()
    } else {
        ParseState {
            config: default_config_view(),
            upstreams: udp_upstreams(init.drop_last()),
            current: Some(UpstreamView { protocol: UpstreamProtocol::Udp, address: init.last() }),
            saw_upstream: true,
        }
    };
    if init.len() == 0 {
        assert(prev =~= Seq::<Seq<char>>::empty());
        assert(apply_lines(lines, 0) == Ok::<ParseState, ErrorView>(st));
    } else {
        assert forall|i: int| 0 <= i < init.len() implies plain_string(#[trigger] init[i]) by {
            assert(init[i] == addrs[i]);
        }
        lemma_apply_sections(init);
        lemma_apply_lines_prefix(prev, seq![header, proto, addr], m);
    }
    assert(apply_lines(lines, m) == Ok::<ParseState, ErrorView>(st));
    // The header closes the section before and opens a new one.
    assert(trim(strip_comment(header)) == header) by {
        lemma_comment_plain(header, 0, header.len() as int);
        assert(strip_comment(header) =~= header);
        lemma_trim_unchanged(header);
    }
    let st1 = ParseState {
        upstreams: udp_upstreams(init),
        current: Some(default_upstream_view()),
        saw_upstream: true,
        ..st
    };
    assert(lines[m] == header);
    if init.len() > 0 {
        assert(init.drop_last().push(init.last()) =~= init);
        assert(udp_upstreams(init.drop_last()).push(
            UpstreamView { protocol: UpstreamProtocol::Udp, address: init.last() },
        ) =~= udp_upstreams(init));
    } else {
        assert(udp_upstreams(init) =~= Seq::<UpstreamView>::empty());
    }
    assert(apply_line(st, header, (m + 1) as usize) == Ok::<ParseState, ErrorView>(st1));
    assert(apply_lines(lines, m + 1) == Ok::<ParseState, ErrorView>(st1));
    // `protocol = "udp"` keeps the new upstream a UDP one.
    assert forall|k: int| 0 <= k < "protocol"@.len() implies !is_white_space(
        #[trigger] "protocol"@[k],
    ) && "protocol"@[k] != '=' && "protocol"@[k] != '#' && "protocol"@[k] != '"'
        && "protocol"@[k] != '\'' by {}
    assert(plain_string("udp"@));
    lemma_assignment_read("protocol"@, "udp"@);
    assert(proto != header) by {
        assert(proto.last() != header.last());
    }
    assert(lines[m + 1] == proto);
    assert(apply_line(st1, proto, (m + 2) as usize) == Ok::<ParseState, ErrorView>(st1));
    assert(apply_lines(lines, m + 2) == Ok::<ParseState, ErrorView>(st1));
    // `address = "..."` sets its address.
    assert forall|k: int| 0 <= k < "address"@.len() implies !is_white_space(
        #[trigger] "address"@[k],
    ) && "address"@[k] != '=' && "address"@[k] != '#' && "address"@[k] != '"' && "address"@[k]
        != '\'' by {}
    assert(plain_string(a)) by {
        assert(addrs[addrs.len() - 1] == a);
    }
    lemma_assignment_read("address"@, a);
    assert(addr != header) by {
        assert(addr.last() != header.last());
    }
    assert("address"@ != "protocol"@) by {
        assert("address"@.len() != "protocol"@.len());
    }
    assert(lines[m + 2] == addr);
    let st3 = ParseState {
        current: Some(UpstreamView { protocol: UpstreamProtocol::Udp, address: a }),
        ..st1
    };
    assert(apply_line(st1, addr, (m + 3) as usize) == Ok::<ParseState, ErrorView>(st3));
    assert(apply_lines(lines, m + 3) == Ok::<ParseState, ErrorView>(st3));
    assert(addrs.drop_last() == init);
}

/// Lines after the first `k` do not change what those `k` give.
proof fn lemma_apply_lines_prefix(lines: Seq<Seq<char>>, more: Seq<Seq<char>>, k: int)
    requires
        0 <= k <= lines.len(),
    ensures
        apply_lines(lines + more, k) == apply_lines(lines, k),
    decreases k,
{
    if k > 0 {
        lemma_apply_lines_prefix(lines, more, k - 1);
        assert((lines + more)[k - 1] == lines[k - 1]);
    }
}

/// The lines of the sections are single lines, as written.
#[verifier::spinoff_prover]
proof fn lemma_section_lines_plain(addrs: Seq<Seq<char>>)
    requires
        forall|i: int| 0 <= i < addrs.len() ==> plain_string(#[trigger] addrs[i]),
    ensures
        forall|j: int|
            0 <= j < udp_section_lines(addrs).len() ==> no_newline(
                #[trigger] udp_section_lines(addrs)[j],
            ) && without_cr(udp_section_lines(addrs)[j]) == udp_section_lines(addrs)[j],
    decreases addrs.len(),
{
    if addrs.len() > 0 {
        let init = addrs.drop_last();
        let a = addrs.last();
        assert forall|i: int| 0 <= i < init.len() implies plain_string(#[trigger] init[i]) by {
            assert(init[i] == addrs[i]);
        }
        lemma_section_lines_plain(init);
        assert(plain_string(a)) by {
            assert(addrs[addrs.len() - 1] == a);
        }
        reveal_strlit("[[upstream]]");
        reveal_strlit("protocol");
        reveal_strlit("address");
        reveal_strlit("udp");
        let prev = udp_section_lines(init);
        let header = "[[upstream]]"@;
        let proto = assignment_line("protocol"@, "udp"@);
        let addr = assignment_line("address"@, a);
        assert(no_newline(header) && without_cr(header) == header);
        assert(no_newline(proto) && without_cr(proto) == proto) by {
            assert forall|k: int| 0 <= k < proto.len() implies proto[k] != '\n' by {}
        }
        assert(no_newline(addr) && without_cr(addr) == addr) by {
            assert forall|k: int| 0 <= k < addr.len() implies addr[k] != '\n' by {
                let kl = "address"@.len() as int;
                if kl + 4 <= k < kl + 4 + a.len() {
                    assert(addr[k] == a[k - kl - 4]);
                }
            }
        }
        let lines = udp_section_lines(addrs);
        assert(lines == prev + seq![header, proto, addr]);
        assert forall|j: int| 0 <= j < lines.len() implies no_newline(#[trigger] lines[j])
            && without_cr(lines[j]) == lines[j] by {
            if j < prev.len() {
                assert(lines[j] == prev[j]);
            }
        }
    }
}

/// A text made of `[[upstream]]` sections, one for each address, each with
/// `protocol = "udp"` and `address = "<address>"`, configures exactly those
/// upstreams, one for each section, in the order of the sections; every
/// other setting keeps its default.
pub proof fn lemma_upstream_sections(addrs: Seq<Seq<char>>)
    requires
        addrs.len() > 0,
        forall|i: int| 0 <= i < addrs.len() ==> plain_string(#[trigger] addrs[i]),
    ensures
        parse_config(joined_lines(udp_section_lines(addrs))) == Ok::<ConfigView, ErrorView>(
            ConfigView { upstream: udp_upstreams(addrs), ..default_config_view() },
        ),
{
    let lines = udp_section_lines(addrs);
    let text = joined_lines(lines);
    lemma_section_lines_plain(addrs);
    lemma_lines_of_joined(lines, Seq::empty());
    assert(text + Seq::<char>::empty() =~= text);
    assert(text_lines(text) == lines);
    lemma_apply_sections(addrs);
    assert(addrs.drop_last().push(addrs.last()) =~= addrs);
    assert(udp_upstreams(addrs.drop_last()).push(
        UpstreamView { protocol: UpstreamProtocol::Udp, address: addrs.last() },
    ) =~= udp_upstreams(addrs));
}

} // verus!
