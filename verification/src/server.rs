//! The single-upstream UDP server: its options, and what it does with a
//! query. A query whose domain the rules block is answered NXDOMAIN; with
//! the cache on, a live cached response is answered; any other query goes to
//! the upstream resolver, whose response is cached and answered.
//!
//! Receiving and sending datagrams and asking upstream are the caller's:
//! `handle_request` decides what to do with the bytes received, and
//! `handle_response` what to answer once upstream has replied.

use vstd::prelude::*;

use crate::app_config::{duration_from_secs, duration_of_secs};
use crate::cache::{after_insert, after_lookup, cache_key_of, lookup, Lookup, ResponseCache};
use crate::dns::{blocked_response, reply_view};
use crate::domain_rules::{rules_block, RuleEngine};
use crate::message::{
    classes_known, decoded_message, encode_message, encoded_message, DnsMessage, MessageView,
    RCODE_NXDOMAIN,
};
use crate::net::{SocketAddress, SpecSocketAddr};

verus! {

/// Runtime options for the UDP DNS server.
#[derive(Debug)]
pub struct ServerOptions {
    /// UDP socket address the server binds to.
    pub listen_addr: SocketAddress,
    /// UDP socket address of the upstream resolver.
    pub upstream_addr: SocketAddress,
    /// Enables or disables response caching.
    pub cache_enabled: bool,
    /// Enables or disables per-query logging.
    pub log_queries: bool,
    /// Lifetime for cached upstream responses.
    pub cache_ttl: std::time::Duration,
}

/// Seconds a cached response lives unless configured otherwise.
pub const CACHE_TTL_SECS: u64 = 300;

impl Default for ServerOptions {
    fn default() -> (o: Self)
        ensures
            o.listen_addr@ == (SpecSocketAddr::V4 { octets: seq![127u8, 0u8, 0u8, 1u8], port: 5353 }),
            o.upstream_addr@ == (SpecSocketAddr::V4 { octets: seq![1u8, 1u8, 1u8, 1u8], port: 53 }),
            o.cache_enabled,
            o.log_queries,
            o.cache_ttl == duration_of_secs(CACHE_TTL_SECS),
    {
        let mut local: Vec<u8> = Vec::new();
        local.push(127);
        local.push(0);
        local.push(0);
        local.push(1);
        let mut upstream: Vec<u8> = Vec::new();
        upstream.push(1);
        upstream.push(1);
        upstream.push(1);
        upstream.push(1);
        assert(local@ =~= seq![127u8, 0u8, 0u8, 1u8]);
        assert(upstream@ =~= seq![1u8, 1u8, 1u8, 1u8]);
        let o = ServerOptions {
            listen_addr: SocketAddress::V4 { octets: local, port: 5353 },
            upstream_addr: SocketAddress::V4 { octets: upstream, port: 53 },
            cache_enabled: true,
            log_queries: true,
            cache_ttl: duration_from_secs(CACHE_TTL_SECS),
        };
        assert(o.listen_addr@ == (SpecSocketAddr::V4 { octets: seq![127u8, 0u8, 0u8, 1u8], port: 5353 }));
        assert(o.upstream_addr@ == (SpecSocketAddr::V4 { octets: seq![1u8, 1u8, 1u8, 1u8], port: 53 }));
        o
    }
}

/// Whether the rules block the name, as written, of one of the questions.
pub open spec fn request_blocked(rules: Set<Seq<char>>, m: MessageView) -> bool {
    exists|i: int| 0 <= i < m.queries.len() && #[trigger] rules_block(rules, m.queries[i].name.text)
}

/// Whether a request asks about a blocked name.
pub fn should_block(req: &DnsMessage, rules: &RuleEngine) -> (b: bool)
    ensures
        b == request_blocked(rules@, req@),
{
    let mut k: usize = 0;
    while k < req.queries.len()
        invariant
            k <= req@.queries.len(),
            forall|i: int| 0 <= i < k ==> !#[trigger] rules_block(rules@, req@.queries[i].name.text),
        decreases req@.queries.len() - k,
    {
        assert(req@.queries[k as int] == req.queries@[k as int]@);
        let t = req.queries[k].name.text();
        assert(t@ == req@.queries[k as int].name.text);
        if rules.is_blocked(t.as_str()) {
            assert(rules_block(rules@, req@.queries[k as int].name.text));
            return true;
        }
        k = k + 1;
    }
    false
}

/// What the server does with the bytes of a query.
pub enum Handled {
    /// Send these bytes back.
    Reply(Vec<u8>),
    /// Send the query to the upstream resolver, then call `handle_response`
    /// with this request.
    Forward(DnsMessage),
    /// Send nothing.
    Failed,
}

/// Decides what to do with the bytes of a query received at time `now`:
/// nothing when they are no message; NXDOMAIN when the rules block one of
/// its names; with the cache on, the cached response when a live one is
/// cached; otherwise forwarding.
pub fn handle_request(
    buf: &[u8],
    rules: &RuleEngine,
    cache: &mut ResponseCache,
    cache_enabled: bool,
    now: u128,
) -> (h: Handled)
    ensures
        match decoded_message(buf@) {
            None => final(cache)@ == old(cache)@ && h is Failed,
            Some(req) => if request_blocked(rules@, req) {
                &&& final(cache)@ == old(cache)@
                &&& match encoded_message(reply_view(req, RCODE_NXDOMAIN)) {
                    Some(b) => h matches Handled::Reply(bytes) && bytes@ == b,
                    None => h is Failed,
                }
            } else if cache_enabled {
                &&& final(cache)@ == after_lookup(old(cache)@, cache_key_of(req), req.id, now)
                &&& match lookup(old(cache)@, cache_key_of(req), req.id, now) {
                    Lookup::Hit(Some(b)) => h matches Handled::Reply(bytes) && bytes@ == b,
                    Lookup::Hit(None) => h is Failed,
                    _ => h matches Handled::Forward(r) && r@ == req && classes_known(r@),
                }
            } else {
                &&& final(cache)@ == old(cache)@
                &&& h matches Handled::Forward(r) && r@ == req && classes_known(r@)
            },
        },
{
    let req = match DnsMessage::from_bytes(buf) {
        Some(m) => m,
        None => return Handled::Failed,
    };
    if should_block(&req, rules) {
        return match encode_message(&blocked_response(&req)) {
            Some(bytes) => Handled::Reply(bytes),
            None => Handled::Failed,
        };
    }
    if cache_enabled {
        match cache.get_at(&req, now) {
            Err(_) => Handled::Failed,
            Ok(Some(bytes)) => Handled::Reply(bytes),
            Ok(None) => Handled::Forward(req),
        }
    } else {
        Handled::Forward(req)
    }
}

/// What to answer once upstream replied to a forwarded request at time
/// `now`: the reply itself, stored in the cache first when the cache is on.
pub fn handle_response(
    request: &DnsMessage,
    response: Vec<u8>,
    cache: &mut ResponseCache,
    cache_enabled: bool,
    now: u128,
) -> (answer: Vec<u8>)
    requires
        classes_known(request@),
    ensures
        answer@ == response@,
        final(cache)@ == if cache_enabled {
            after_insert(old(cache)@, cache_key_of(request@), response@, now)
        } else {
            old(cache)@
        },
{
    if cache_enabled {
        let copy = crate::message::copy_bytes(response.as_slice());
        cache.insert_at(request, copy, now);
    }
    response
}

} // verus!
