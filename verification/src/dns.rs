//! How the server answers a query: malformed queries get FORMERR, blocked
//! ones NXDOMAIN, cached ones the cached response, the others what the
//! upstream resolvers answer, or SERVFAIL when none does.
//!
//! The work around a query (receiving it, asking upstream, logging it) is the
//! caller's: `prepare_query` decides what to do with the bytes received, and
//! `finish_query` what to answer once upstream has replied or failed.

use vstd::prelude::*;

use crate::cache::{after_insert, after_lookup, cache_key_of, lookup, Lookup, ResponseCache};
use crate::message::{
    classes_known, copy_questions, decoded_message, encode_message, encoded_message,
    record_type_name, record_type_text, DnsMessage, DnsName, MessageType, MessageView, NameView,
    QuestionView, OP_QUERY, RCODE_FORMERR, RCODE_NXDOMAIN, RCODE_SERVFAIL,
};
use crate::rules::RuleEngine;
use crate::stats::{after_allowed, after_blocked, after_hit, after_miss, QueryLogger, StatsView};
use crate::storage::QueryAction;
use crate::text::{chars_of, slice_chars, string_of};

verus! {

/// The domain of a name: its text without the trailing dot of a fully
/// qualified name.
pub open spec fn domain_text(n: NameView) -> Seq<char> {
    if n.text.len() > 0 && n.text.last() == '.' {
        n.text.drop_last()
    } else {
        n.text
    }
}

/// Extract domain from a DNS query name, stripping trailing dot (FQDN).
pub fn domain_from_name(name: &DnsName) -> (s: String)
    ensures
        s@ == domain_text(name@),
{
    let t = chars_of(name.text().as_str());
    if t.len() > 0 && t[t.len() - 1] == '.' {
        string_of(slice_chars(t.as_slice(), 0, t.len() - 1).as_slice())
    } else {
        proof {
            assert(t@ == name@.text);
        }
        string_of(t.as_slice())
    }
}

/// Whether a message is a query with at least one question.
pub open spec fn valid_query(m: MessageView) -> bool {
    m.message_type == MessageType::Query && m.queries.len() > 0
}

/// Validate a DNS query message.
pub fn is_valid_query(req: &DnsMessage) -> (b: bool)
    ensures
        b == valid_query(req@),
{
    req.message_type == MessageType::Query && req.queries.len() > 0
}

/// Whether the rules block one of the domains a message asks about.
pub open spec fn blocked_request(rules: RuleEngine, m: MessageView) -> bool {
    exists|i: int| 0 <= i < m.queries.len() && #[trigger] rules.blocks(domain_text(m.queries[i].name))
}

/// Check if a DNS message should be blocked.
pub fn should_block(req: &DnsMessage, rules: &RuleEngine) -> (b: bool)
    ensures
        b == blocked_request(*rules, req@),
{
    let mut k: usize = 0;
    while k < req.queries.len()
        invariant
            k <= req@.queries.len(),
            forall|i: int| 0 <= i < k ==> !#[trigger] rules.blocks(domain_text(req@.queries[i].name)),
        decreases req@.queries.len() - k,
    {
        let domain = domain_from_name(&req.queries[k].name);
        assert(req@.queries[k as int] == req.queries@[k as int]@);
        if rules.is_blocked(domain.as_str()) {
            assert(rules.blocks(domain_text(req@.queries[k as int].name)));
            return true;
        }
        k = k + 1;
    }
    false
}

/// The answer to a request with a response code: same id, operation and
/// questions, recursion desired as asked, recursion available.
pub open spec fn reply_view(req: MessageView, rcode: u16) -> MessageView {
    MessageView {
        id: req.id,
        message_type: MessageType::Response,
        op_code: req.op_code,
        recursion_desired: req.recursion_desired,
        recursion_available: true,
        response_code: rcode,
        queries: req.queries,
    }
}

/// A reply answers its request: it is a response with the given code that
/// keeps the request's id, operation, questions and recursion-desired flag
/// (RFC 1035 4.1.1 copies RD into the response), with recursion available.
pub proof fn lemma_reply_answers_request(req: MessageView, rcode: u16)
    ensures
        ({
            let r = reply_view(req, rcode);
            &&& r.message_type == MessageType::Response
            &&& r.response_code == rcode
            &&& r.id == req.id
            &&& r.op_code == req.op_code
            &&& r.recursion_desired == req.recursion_desired
            &&& r.recursion_available
            &&& r.queries == req.queries
        }),
{
}

/// The NXDOMAIN answer to a blocked query and the SERVFAIL answer to a
/// failed one keep the query's id and recursion-desired flag: any two
/// queries that differ only in that flag get answers that differ only in it.
pub proof fn lemma_reply_follows_rd(req: MessageView, rcode: u16, rd: bool)
    ensures
        ({
            let asked = MessageView { recursion_desired: rd, ..req };
            &&& reply_view(asked, rcode).recursion_desired == rd
            &&& reply_view(asked, rcode) == MessageView {
                recursion_desired: rd,
                ..reply_view(req, rcode)
            }
        }),
{
}

/// The answer to a malformed query.
pub open spec fn formerr_view() -> MessageView {
    MessageView {
        id: 0,
        message_type: MessageType::Response,
        op_code: OP_QUERY,
        recursion_desired: false,
        recursion_available: true,
        response_code: RCODE_FORMERR,
        queries: Seq::empty(),
    }
}

fn reply(req: &DnsMessage, rcode: u16) -> (r: DnsMessage)
    ensures
        r@ == reply_view(req@, rcode),
{
    DnsMessage {
        id: req.id,
        message_type: MessageType::Response,
        op_code: req.op_code,
        recursion_desired: req.recursion_desired,
        recursion_available: true,
        response_code: rcode,
        queries: copy_questions(&req.queries),
    }
}

/// Create a blocked (NXDOMAIN) response.
pub fn blocked_response(req: &DnsMessage) -> (r: DnsMessage)
    ensures
        r@ == reply_view(req@, RCODE_NXDOMAIN),
{
    reply(req, RCODE_NXDOMAIN)
}

/// Create a SERVFAIL response for upstream failures.
pub fn servfail_response(req: &DnsMessage) -> (r: DnsMessage)
    ensures
        r@ == reply_view(req@, RCODE_SERVFAIL),
{
    reply(req, RCODE_SERVFAIL)
}

/// Create a FORMERR response for malformed queries.
pub fn formerr_response() -> (r: DnsMessage)
    ensures
        r@ == formerr_view(),
{
    let r = DnsMessage {
        id: 0,
        message_type: MessageType::Response,
        op_code: OP_QUERY,
        recursion_desired: false,
        recursion_available: true,
        response_code: RCODE_FORMERR,
        queries: Vec::new(),
    };
    assert(r@.queries =~= Seq::<QuestionView>::empty());
    r
}

/// The statistics after a blocked query for each of some questions' domains.
pub open spec fn after_blocked_all(v: StatsView, qs: Seq<QuestionView>) -> StatsView
    decreases qs.len(),
{
    if qs.len() == 0 {
        v
    } else {
        after_blocked(after_blocked_all(v, qs.drop_last()), domain_text(qs.last().name))
    }
}

/// Records a blocked query for each question's domain.
fn record_blocked_all(stats: &mut QueryLogger, req: &DnsMessage)
    ensures
        final(stats)@ == after_blocked_all(old(stats)@, req@.queries),
{
    let mut k: usize = 0;
    let ghost qs = req@.queries;
    while k < req.queries.len()
        invariant
            k <= qs.len(),
            qs == req@.queries,
            stats@ == after_blocked_all(old(stats)@, qs.subrange(0, k as int)),
        decreases qs.len() - k,
    {
        let domain = domain_from_name(&req.queries[k].name);
        assert(qs[k as int] == req.queries@[k as int]@);
        stats.record_blocked(domain.as_str());
        assert(qs.subrange(0, k + 1).drop_last() =~= qs.subrange(0, k as int));
        k = k + 1;
    }
    assert(qs.subrange(0, qs.len() as int) =~= qs);
}

/// What to do with the bytes of a query.
pub enum Prepared {
    /// Answer with these bytes; log the query with the action, if any.
    Reply { bytes: Vec<u8>, action: Option<QueryAction> },
    /// Ask the upstream resolvers, then call `finish_query` with the request.
    Forward { request: DnsMessage },
    /// No answer can be made.
    Failed,
}

/// The answer to a malformed query, if it can be encoded.
fn formerr_reply() -> (p: Prepared)
    ensures
        match encoded_message(formerr_view()) {
            Some(b) => p matches Prepared::Reply { bytes, action } && bytes@ == b && action is None,
            None => p is Failed,
        },
{
    match encode_message(&formerr_response()) {
        Some(bytes) => Prepared::Reply { bytes, action: None },
        None => Prepared::Failed,
    }
}

/// Decides what to do with the bytes of a query received at time `now`:
/// FORMERR for bytes that are no message or no valid query; NXDOMAIN when
/// the rules block one of its domains (each question's domain is recorded as
/// blocked); the cached response when a live one is cached (a cache hit is
/// recorded); otherwise forwarding (a cache miss is recorded).
pub fn prepare_query(
    buf: &[u8],
    rules: &RuleEngine,
    cache: &mut ResponseCache,
    stats: &mut QueryLogger,
    now: u128,
) -> (p: Prepared)
    ensures
        match decoded_message(buf@) {
            Some(req) if valid_query(req) => if blocked_request(*rules, req) {
                &&& final(cache)@ == old(cache)@
                &&& final(stats)@ == after_blocked_all(old(stats)@, req.queries)
                &&& match encoded_message(reply_view(req, RCODE_NXDOMAIN)) {
                    Some(b) => p matches Prepared::Reply { bytes, action } && bytes@ == b && action
                        == Some(QueryAction::Blocked),
                    None => p is Failed,
                }
            } else {
                &&& final(cache)@ == after_lookup(old(cache)@, cache_key_of(req), req.id, now)
                &&& match lookup(old(cache)@, cache_key_of(req), req.id, now) {
                    Lookup::Hit(Some(b)) => {
                        &&& final(stats)@ == after_hit(old(stats)@)
                        &&& p matches Prepared::Reply { bytes, action } && bytes@ == b && action
                            == Some(QueryAction::Cached)
                    },
                    Lookup::Hit(None) => final(stats)@ == old(stats)@ && p is Failed,
                    _ => {
                        &&& final(stats)@ == after_miss(old(stats)@)
                        &&& p matches Prepared::Forward { request } && request@ == req
                            && classes_known(request@)
                    },
                }
            },
            _ => {
                &&& final(cache)@ == old(cache)@
                &&& final(stats)@ == old(stats)@
                &&& match encoded_message(formerr_view()) {
                    Some(b) => p matches Prepared::Reply { bytes, action } && bytes@ == b && action is None,
                    None => p is Failed,
                }
            },
        },
{
    let req = match DnsMessage::from_bytes(buf) {
        Some(m) => m,
        None => return formerr_reply(),
    };
    if !is_valid_query(&req) {
        return formerr_reply();
    }
    if should_block(&req, rules) {
        record_blocked_all(stats, &req);
        return match encode_message(&blocked_response(&req)) {
            Some(bytes) => Prepared::Reply { bytes, action: Some(QueryAction::Blocked) },
            None => Prepared::Failed,
        };
    }
    match cache.get_at(&req, now) {
        Err(_) => Prepared::Failed,
        Ok(Some(bytes)) => {
            stats.record_cache_hit();
            Prepared::Reply { bytes, action: Some(QueryAction::Cached) }
        },
        Ok(None) => {
            stats.record_cache_miss();
            Prepared::Forward { request: req }
        },
    }
}

/// What to answer a forwarded request once upstream has replied (`Some`)
/// or failed (`None`), at time `now`.
pub enum Finished {
    /// Answer with these bytes and log the query with the action.
    Reply { bytes: Vec<u8>, action: QueryAction },
    /// No answer can be made.
    Failed,
}

/// Finishes a forwarded request: an upstream reply is cached, counted as
/// allowed and answered; an upstream failure is answered with SERVFAIL.
pub fn finish_query(
    request: &DnsMessage,
    upstream: Option<Vec<u8>>,
    cache: &mut ResponseCache,
    stats: &mut QueryLogger,
    now: u128,
) -> (f: Finished)
    requires
        classes_known(request@),
    ensures
        match upstream {
            Some(resp) => {
                &&& final(cache)@ == after_insert(old(cache)@, cache_key_of(request@), resp@, now)
                &&& final(stats)@ == after_allowed(old(stats)@)
                &&& f matches Finished::Reply { bytes, action } && bytes@ == resp@ && action
                    == QueryAction::Allowed
            },
            None => {
                &&& final(cache)@ == old(cache)@
                &&& final(stats)@ == old(stats)@
                &&& match encoded_message(reply_view(request@, RCODE_SERVFAIL)) {
                    Some(b) => f matches Finished::Reply { bytes, action } && bytes@ == b && action
                        == QueryAction::Error,
                    None => f is Failed,
                }
            },
        },
{
    match upstream {
        Some(resp) => {
            let copy = crate::message::copy_bytes(resp.as_slice());
            cache.insert_at(request, copy, now);
            stats.record_allowed();
            Finished::Reply { bytes: resp, action: QueryAction::Allowed }
        },
        None => match encode_message(&servfail_response(request)) {
            Some(bytes) => Finished::Reply { bytes, action: QueryAction::Error },
            None => Finished::Failed,
        },
    }
}

/// The domain and record type a query log entry names: those of the first
/// question, or empty texts when there is none.
pub open spec fn log_labels(req: MessageView) -> (Seq<char>, Seq<char>) {
    if req.queries.len() > 0 {
        (domain_text(req.queries[0].name), record_type_text(req.queries[0].query_type))
    } else {
        (Seq::empty(), Seq::empty())
    }
}

/// The domain and record type to log for a request.
pub fn query_log_labels(req: &DnsMessage) -> (r: (String, String))
    ensures
        (r.0@, r.1@) == log_labels(req@),
{
    if req.queries.len() > 0 {
        assert(req@.queries[0] == req.queries@[0]@);
        (domain_from_name(&req.queries[0].name), record_type_name(req.queries[0].query_type))
    } else {
        (String::new(), String::new())
    }
}


/// The largest message a TCP length prefix can announce.
pub const MAX_TCP_MESSAGE: u16 = 65535;

/// Whether a TCP client's announced query length is served: not zero and at
/// most `MAX_TCP_MESSAGE`.
pub fn accepted_tcp_length(len: usize) -> (ok: bool)
    ensures
        ok == (0 < len && len <= MAX_TCP_MESSAGE),
{
    len != 0 && len <= MAX_TCP_MESSAGE as usize
}

} // verus!
