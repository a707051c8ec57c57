//! Upstream resolvers: protocol names and ports, per-resolver settings,
//! ordered failover over several resolvers, and the address, host, URL and
//! length-prefix computations the transports need.
//!
//! Resolvers are tried in order; the first answer wins, and when every one
//! fails the last failure is reported.

use vstd::prelude::*;

use crate::app_config::{duration_from_secs, duration_of_secs};
use crate::net::{
    addr_port, lemma_trailing_port, parse_socket_addr, socket_addr_of, SocketAddress, SpecSocketAddr,
};
use crate::text::{
    append_chars, append_str, chars_of, decimal, decimal_chars, find_char,
    first_index_of, is_literal, slice_chars, starts_with_chars, string_of, to_lowercase,
    unicode_lowercase,
};

verus! {

/// The default port of plain DNS over UDP and TCP.
pub const DNS_PORT: u16 = 53;

/// The default port of DNS over TLS.
pub const TLS_PORT: u16 = 853;

/// The default port of DNS over HTTPS.
pub const HTTPS_PORT: u16 = 443;

/// Seconds an upstream request may take unless configured otherwise.
pub const DEFAULT_TIMEOUT_SECS: u64 = 5;

/// Supported upstream protocols.
#[derive(Debug, Clone, Copy, PartialEq, Eq, Structural)]
pub enum Protocol {
    /// Plain UDP (traditional DNS)
    Udp,
    /// Plain TCP (traditional DNS)
    Tcp,
    /// DNS-over-TLS (RFC 7858)
    Tls,
    /// DNS-over-HTTPS (RFC 8484)
    Https,
}

/// The protocol a lowercase name stands for.
pub open spec fn protocol_named(lower: Seq<char>) -> Option<Protocol> {
    if lower == "udp"@ {
        Some(Protocol::Udp)
    } else if lower == "tcp"@ {
        Some(Protocol::Tcp)
    } else if lower == "tls"@ {
        Some(Protocol::Tls)
    } else if lower == "https"@ || lower == "doh"@ {
        Some(Protocol::Https)
    } else {
        None
    }
}

/// The port a protocol uses when the address names none.
pub open spec fn port_of(p: Protocol) -> u16 {
    match p {
        Protocol::Udp | Protocol::Tcp => DNS_PORT,
        Protocol::Tls => TLS_PORT,
        Protocol::Https => HTTPS_PORT,
    }
}

impl Protocol {
    /// Parse a protocol name, in any case: "udp", "tcp", "tls", and
    /// "https" or "doh".
    pub fn parse(s: &str) -> (p: Option<Protocol>)
        ensures
            p == protocol_named(unicode_lowercase(s@)),
    {
        let chars = chars_of(s);
        let lower = to_lowercase(chars.as_slice());
        let l = lower.as_slice();
        if is_literal(l, "udp") {
            Some(Protocol::Udp)
        } else if is_literal(l, "tcp") {
            Some(Protocol::Tcp)
        } else if is_literal(l, "tls") {
            Some(Protocol::Tls)
        } else if is_literal(l, "https") || is_literal(l, "doh") {
            Some(Protocol::Https)
        } else {
            None
        }
    }

    /// Default port for this protocol.
    pub fn default_port(&self) -> (port: u16)
        ensures
            port == port_of(*self),
    {
        match self {
            Protocol::Udp | Protocol::Tcp => DNS_PORT,
            Protocol::Tls => TLS_PORT,
            Protocol::Https => HTTPS_PORT,
        }
    }
}

/// Settings of one upstream resolver, as values.
pub struct UpstreamConfigView {
    pub protocol: Protocol,
    pub address: Seq<char>,
    pub timeout: std::time::Duration,
}

/// Configuration for a single upstream server.
#[derive(Debug)]
pub struct UpstreamConfig {
    /// Protocol to use
    pub protocol: Protocol,
    /// Server address (host or host:port, or full URL for DoH)
    pub address: String,
    /// Request timeout
    pub timeout: std::time::Duration,
}

impl View for UpstreamConfig {
    type V = UpstreamConfigView;

    open spec fn view(&self) -> UpstreamConfigView {
        UpstreamConfigView { protocol: self.protocol, address: self.address@, timeout: self.timeout }
    }
}

impl Clone for UpstreamConfig {
    fn clone(&self) -> (c: UpstreamConfig)
        ensures
            c@ == self@,
    {
        UpstreamConfig { protocol: self.protocol, address: self.address.clone(), timeout: self.timeout }
    }
}

impl UpstreamConfig {
    /// Create a new upstream config with the default timeout.
    pub fn new(protocol: Protocol, address: &str) -> (c: UpstreamConfig)
        ensures
            c@ == (UpstreamConfigView {
                protocol,
                address: address@,
                timeout: duration_of_secs(DEFAULT_TIMEOUT_SECS),
            }),
    {
        UpstreamConfig {
            protocol,
            address: address.to_owned(),
            timeout: duration_from_secs(DEFAULT_TIMEOUT_SECS),
        }
    }

    /// The same config with another timeout.
    pub fn with_timeout(self, timeout: std::time::Duration) -> (c: UpstreamConfig)
        ensures
            c@ == (UpstreamConfigView { timeout, ..self@ }),
    {
        let mut c = self;
        c.timeout = timeout;
        c
    }
}

/// A single upstream client for a specific protocol.
pub struct UpstreamClient {
    config: UpstreamConfig,
}

impl View for UpstreamClient {
    type V = UpstreamConfigView;

    closed spec fn view(&self) -> UpstreamConfigView {
        self.config@
    }
}

impl UpstreamClient {
    /// A client for the resolver that `config` describes.
    pub fn new(config: UpstreamConfig) -> (c: UpstreamClient)
        ensures
            c@ == config@,
    {
        UpstreamClient { config }
    }

    /// The resolver's address, which names it in messages.
    pub fn label(&self) -> (s: &str)
        ensures
            s@ == self@.address,
    {
        self.config.address.as_str()
    }

    /// The settings the client forwards with.
    pub fn config(&self) -> (c: &UpstreamConfig)
        ensures
            c@ == self@,
    {
        &self.config
    }
}

/// Several upstream resolvers, tried in order.
pub struct UpstreamManager {
    clients: Vec<UpstreamClient>,
}

impl View for UpstreamManager {
    type V = Seq<UpstreamConfigView>;

    closed spec fn view(&self) -> Seq<UpstreamConfigView> {
        self.clients@.map_values(|c: UpstreamClient| c@)
    }
}

/// A failure to get an answer from any resolver.
#[derive(Debug, Clone, PartialEq, Eq)]
pub enum ForwardFailure {
    /// There is no resolver to ask.
    NoUpstreams,
    /// Every resolver failed; the message is that of the last one.
    AllFailed(String),
}

/// What failed, as values.
pub enum FailureView {
    NoUpstreams,
    AllFailed(Seq<char>),
}

/// What to do next while forwarding a query.
#[derive(Debug)]
pub enum ForwardStep {
    /// Send the query to the resolver at this index.
    Try(usize),
    /// Reply with this answer.
    Answer(Vec<u8>),
    /// Give up.
    Fail(ForwardFailure),
}

/// A forwarding step, as values.
pub enum StepView {
    Try(int),
    Answer(Seq<u8>),
    Fail(FailureView),
}

impl View for ForwardFailure {
    type V = FailureView;

    open spec fn view(&self) -> FailureView {
        match self {
            ForwardFailure::NoUpstreams => FailureView::NoUpstreams,
            ForwardFailure::AllFailed(e) => FailureView::AllFailed(e@),
        }
    }
}

impl View for ForwardStep {
    type V = StepView;

    open spec fn view(&self) -> StepView {
        match self {
            ForwardStep::Try(i) => StepView::Try(*i as int),
            ForwardStep::Answer(r) => StepView::Answer(r@),
            ForwardStep::Fail(f) => StepView::Fail(f@),
        }
    }
}

impl ForwardFailure {
    /// The message the failure is reported with.
    pub fn to_string(&self) -> (s: String)
        ensures
            s@ == match self@ {
                FailureView::NoUpstreams => "no upstreams configured"@,
                FailureView::AllFailed(e) => e,
            },
    {
        match self {
            ForwardFailure::NoUpstreams => "no upstreams configured".to_owned(),
            ForwardFailure::AllFailed(e) => e.clone(),
        }
    }
}

/// The step that starts forwarding over `n` resolvers.
pub open spec fn first_step(n: int) -> StepView {
    if n > 0 {
        StepView::Try(0)
    } else {
        StepView::Fail(FailureView::NoUpstreams)
    }
}

/// The step after resolver `i` of `n` answered with `outcome`.
pub open spec fn step_after(n: int, i: int, outcome: Result<Seq<u8>, Seq<char>>) -> StepView {
    match outcome {
        Ok(r) => StepView::Answer(r),
        Err(e) => if i + 1 < n {
            StepView::Try(i + 1)
        } else {
            StepView::Fail(FailureView::AllFailed(e))
        },
    }
}

/// Where forwarding ends when resolver `k` answers with `outcomes[k]`,
/// taking at most `fuel` more steps from `step`.
pub open spec fn run_steps(
    n: int,
    outcomes: Seq<Result<Seq<u8>, Seq<char>>>,
    step: StepView,
    fuel: nat,
) -> StepView
    decreases fuel,
{
    match step {
        StepView::Try(i) => if fuel > 0 && 0 <= i < outcomes.len() {
            run_steps(n, outcomes, step_after(n, i, outcomes[i]), (fuel - 1) as nat)
        } else {
            step
        },
        _ => step,
    }
}

impl UpstreamManager {
    /// Create a new upstream manager from a list of configs.
    pub fn new(configs: Vec<UpstreamConfig>) -> (m: UpstreamManager)
        ensures
            m@ == configs@.map_values(|c: UpstreamConfig| c@),
    {
        let mut clients: Vec<UpstreamClient> = Vec::new();
        let mut configs = configs;
        let ghost all = configs@;
        while configs.len() > 0
            invariant
                configs@ == all.subrange(clients@.len() as int, all.len() as int),
                clients@.len() <= all.len(),
                forall|k: int| 0 <= k < clients@.len() ==> #[trigger] clients@[k]@ == all[k]@,
            decreases configs@.len(),
        {
            let c = configs.remove(0);
            clients.push(UpstreamClient::new(c));
            assert(configs@ =~= all.subrange(clients@.len() as int, all.len() as int));
        }
        let m = UpstreamManager { clients };
        assert(m@ =~= all.map_values(|c: UpstreamConfig| c@));
        m
    }

    /// Number of configured upstreams.
    pub fn len(&self) -> (n: usize)
        ensures
            n == self@.len(),
    {
        self.clients.len()
    }

    /// Whether no upstreams are configured.
    pub fn is_empty(&self) -> (b: bool)
        ensures
            b == (self@.len() == 0),
    {
        self.clients.len() == 0
    }

    /// The client of the resolver at index `i`.
    pub fn client(&self, i: usize) -> (c: &UpstreamClient)
        requires
            i < self@.len(),
        ensures
            c@ == self@[i as int],
    {
        &self.clients[i]
    }

    /// How forwarding starts: with the first resolver, or with a failure
    /// when there is none.
    pub fn first_step(&self) -> (s: ForwardStep)
        ensures
            s@ == first_step(self@.len() as int),
    {
        if self.clients.len() > 0 {
            ForwardStep::Try(0)
        } else {
            ForwardStep::Fail(ForwardFailure::NoUpstreams)
        }
    }

    /// What follows once resolver `tried` answered with `outcome`: the
    /// answer, the next resolver, or, after the last one, its failure.
    pub fn next_step(&self, tried: usize, outcome: Result<Vec<u8>, String>) -> (s: ForwardStep)
        requires
            tried < self@.len(),
        ensures
            s@ == step_after(
                self@.len() as int,
                tried as int,
                match outcome {
                    Ok(r) => Ok(r@),
                    Err(e) => Err(e@),
                },
            ),
    {
        let n = self.clients.len();
        assert(self@.len() == n);
        match outcome {
            Ok(r) => ForwardStep::Answer(r),
            Err(e) => if tried < n - 1 {
                ForwardStep::Try(tried + 1)
            } else {
                ForwardStep::Fail(ForwardFailure::AllFailed(e))
            },
        }
    }
}

/// Forwarding over resolvers that answer with `outcomes`, in order, ends
/// within one step per resolver: with the answer of the first resolver that
/// gave one, with the last resolver's failure when all failed, and with "no
/// upstreams" when there is none.
pub proof fn lemma_failover(outcomes: Seq<Result<Seq<u8>, Seq<char>>>)
    ensures
        ({
            let n = outcomes.len() as int;
            let end = run_steps(n, outcomes, first_step(n), outcomes.len());
            &&& n == 0 ==> end == StepView::Fail(FailureView::NoUpstreams)
            &&& forall|i: int|
                #![trigger outcomes[i]]
                0 <= i < n && outcomes[i] is Ok && (forall|k: int|
                    0 <= k < i ==> outcomes[k] is Err) ==> end == StepView::Answer(
                    outcomes[i]->Ok_0,
                )
            &&& (n > 0 && forall|k: int| 0 <= k < n ==> outcomes[k] is Err) ==> end
                == StepView::Fail(FailureView::AllFailed(outcomes[n - 1]->Err_0))
        }),
{
    let n = outcomes.len() as int;
    if n > 0 {
        lemma_failover_from(outcomes, 0);
    }
}

proof fn lemma_failover_from(outcomes: Seq<Result<Seq<u8>, Seq<char>>>, j: int)
    requires
        0 <= j < outcomes.len(),
    ensures
        ({
            let n = outcomes.len() as int;
            let end = run_steps(n, outcomes, StepView::Try(j), (n - j) as nat);
            &&& forall|i: int|
                #![trigger outcomes[i]]
                j <= i < n && outcomes[i] is Ok && (forall|k: int|
                    j <= k < i ==> outcomes[k] is Err) ==> end == StepView::Answer(
                    outcomes[i]->Ok_0,
                )
            &&& (forall|k: int| j <= k < n ==> outcomes[k] is Err) ==> end == StepView::Fail(
                FailureView::AllFailed(outcomes[n - 1]->Err_0),
            )
        }),
    decreases outcomes.len() - j,
{
    let n = outcomes.len() as int;
    let end = run_steps(n, outcomes, StepView::Try(j), (n - j) as nat);
    assert(end == run_steps(n, outcomes, step_after(n, j, outcomes[j]), (n - j - 1) as nat));
    if j + 1 < n {
        lemma_failover_from(outcomes, j + 1);
        assert forall|i: int|
            #![trigger outcomes[i]]
            j <= i < n && outcomes[i] is Ok && (forall|k: int|
                j <= k < i ==> outcomes[k] is Err) implies end == StepView::Answer(
            outcomes[i]->Ok_0,
        ) by {
            if i > j {
                assert(outcomes[j] is Err);
                assert forall|k: int| j + 1 <= k < i implies outcomes[k] is Err by {}
            }
        }
        if forall|k: int| j <= k < n ==> outcomes[k] is Err {
            assert(outcomes[j] is Err);
        }
    } else {
        assert forall|i: int|
            #![trigger outcomes[i]]
            j <= i < n && outcomes[i] is Ok && (forall|k: int|
                j <= k < i ==> outcomes[k] is Err) implies end == StepView::Answer(
            outcomes[i]->Ok_0,
        ) by {
            assert(i == j);
        }
    }
}

/// `s` with a default port appended: an IPv6 address without brackets gets
/// them first.
pub open spec fn with_port(s: Seq<char>, port: u16) -> Seq<char> {
    if first_index_of(s, ':') is Some && !(s.len() > 0 && s[0] == '[') {
        seq!['['] + s + seq![']', ':'] + decimal(port as nat)
    } else {
        s + seq![':'] + decimal(port as nat)
    }
}

/// The socket address `s` names, taking `port` when it names none.
pub open spec fn resolved_addr(s: Seq<char>, port: u16) -> Option<SpecSocketAddr> {
    match socket_addr_of(s) {
        Some(a) => Some(a),
        None => socket_addr_of(with_port(s, port)),
    }
}

fn add_port(s: &[char], port: u16) -> (res: Vec<char>)
    ensures
        res@ == with_port(s@, port),
{
    let mut normalized: Vec<char> = Vec::new();
    let has_colon = find_char(s, ':').is_some();
    let bracketed = s.len() > 0 && s[0] == '[';
    if has_colon && !bracketed {
        normalized.push('[');
        append_chars(&mut normalized, s);
        normalized.push(']');
    } else {
        append_chars(&mut normalized, s);
    }
    normalized.push(':');
    let digits = decimal_chars(port as u64);
    append_chars(&mut normalized, digits.as_slice());
    assert(normalized@ =~= with_port(s@, port));
    normalized
}

/// An address that writes a whole socket address resolves to it, port
/// included; one that does not, and resolves once the default port is
/// added, resolves with the default port.
pub proof fn lemma_default_port_applied(s: Seq<char>, port: u16)
    ensures
        socket_addr_of(s) is Some ==> resolved_addr(s, port) == socket_addr_of(s),
        socket_addr_of(s) is None && resolved_addr(s, port) is Some ==> addr_port(
            resolved_addr(s, port).unwrap(),
        ) == port,
{
    if socket_addr_of(s) is None && resolved_addr(s, port) is Some {
        let d = decimal(port as nat);
        if first_index_of(s, ':') is Some && !(s.len() > 0 && s[0] == '[') {
            let x = seq!['['] + s + seq![']'];
            assert(with_port(s, port) =~= x + seq![':'] + d);
            lemma_trailing_port(x, port);
        } else {
            assert(with_port(s, port) =~= s + seq![':'] + d);
            lemma_trailing_port(s, port);
        }
    }
}

/// An address that names no socket address.
#[derive(Debug, Clone, PartialEq, Eq)]
pub struct InvalidAddress {
    /// The address as given.
    pub address: String,
}

impl InvalidAddress {
    /// The message the error is reported with.
    pub fn to_string(&self) -> (s: String)
        ensures
            s@ == "invalid address '"@ + self.address@ + "': invalid socket address syntax"@,
    {
        let mut out: Vec<char> = Vec::new();
        append_str(&mut out, "invalid address '");
        let a = chars_of(self.address.as_str());
        append_chars(&mut out, a.as_slice());
        append_str(&mut out, "': invalid socket address syntax");
        string_of(out.as_slice())
    }
}

/// Parse an address into a socket address, applying `default_port` when
/// the address names no port.
pub fn resolve_addr(addr: &str, default_port: u16) -> (res: Result<SocketAddress, InvalidAddress>)
    ensures
        match resolved_addr(addr@, default_port) {
            Some(a) => res matches Ok(r) && r@ == a && r.wf(),
            None => res matches Err(e) && e.address@ == addr@,
        },
{
    let s = chars_of(addr);
    if let Some(sa) = parse_socket_addr(s.as_slice()) {
        return Ok(sa);
    }
    let normalized = add_port(s.as_slice(), default_port);
    match parse_socket_addr(normalized.as_slice()) {
        Some(sa) => Ok(sa),
        None => Err(InvalidAddress { address: addr.to_owned() }),
    }
}

/// The host part of an address: the text before the first colon.
pub open spec fn host_part(s: Seq<char>) -> Seq<char> {
    match first_index_of(s, ':') {
        Some(i) => s.subrange(0, i),
        None => s,
    }
}

/// The name a TLS connection to `addr` presents: its host part.
pub fn tls_host(addr: &str) -> (host: String)
    ensures
        host@ == host_part(addr@),
{
    let s = chars_of(addr);
    match find_char(s.as_slice(), ':') {
        Some(i) => string_of(slice_chars(s.as_slice(), 0, i).as_slice()),
        None => string_of(s.as_slice()),
    }
}

/// The URL a DNS-over-HTTPS query to `addr` is posted to: the address
/// itself when it is an `https://` or `http://` URL, else
/// `https://addr/dns-query`.
pub open spec fn doh_url_of(s: Seq<char>) -> Seq<char> {
    if "https://"@.is_prefix_of(s) || "http://"@.is_prefix_of(s) {
        s
    } else {
        "https://"@ + s + "/dns-query"@
    }
}

/// The URL for DNS-over-HTTPS queries to `addr`.
pub fn doh_url(addr: &str) -> (url: String)
    ensures
        url@ == doh_url_of(addr@),
{
    let s = chars_of(addr);
    let https = chars_of("https://");
    let http = chars_of("http://");
    if starts_with_chars(s.as_slice(), https.as_slice()) || starts_with_chars(
        s.as_slice(),
        http.as_slice(),
    ) {
        string_of(s.as_slice())
    } else {
        let mut out: Vec<char> = Vec::new();
        append_str(&mut out, "https://");
        append_chars(&mut out, s.as_slice());
        append_str(&mut out, "/dns-query");
        string_of(out.as_slice())
    }
}

/// The two-byte big-endian length that precedes a message of `len` bytes on
/// a TCP or TLS stream; the length is taken modulo 65536.
pub fn length_prefix(len: usize) -> (prefix: [u8; 2])
    ensures
        prefix@ == seq![((len % 65536) / 256) as u8, ((len % 65536) % 256) as u8],
{
    let l: usize = len % 65536;
    let hi: u8 = (l / 256) as u8;
    let lo: u8 = (l % 256) as u8;
    let prefix = [hi, lo];
    assert(prefix@ =~= seq![hi, lo]);
    prefix
}

/// The length a two-byte big-endian prefix announces.
pub fn prefixed_length(prefix: [u8; 2]) -> (len: usize)
    ensures
        len == prefix@[0] as nat * 256 + prefix@[1] as nat,
{
    (prefix[0] as usize) * 256 + (prefix[1] as usize)
}


/// A length below 65536 written as a two-byte prefix reads back as itself.
pub proof fn lemma_length_prefix_round_trip(len: usize)
    requires
        len < 65536,
    ensures
        ({
            let prefix = seq![((len % 65536) / 256) as u8, ((len % 65536) % 256) as u8];
            prefix[0] as nat * 256 + prefix[1] as nat == len
        }),
{
}

} // verus!
