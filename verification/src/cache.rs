//! DNS response cache with TTL-based eviction.
//!
//! Responses are keyed by the questions of the request that produced them
//! (name in ASCII lowercase, record type and class). An entry expires a
//! fixed lifetime after it was stored; a lookup of an expired entry removes
//! it. A cached response is handed out with the id of the request that asks
//! for it.

use vstd::prelude::*;

use dashmap::DashMap;

use crate::collections::{
    entries_get, entries_insert, entries_len, entries_new, entries_remove, entry_contents,
};
use crate::message::{
    class_debug, class_debug_text, class_known, classes_known, record_type_debug,
    record_type_debug_text, with_message_id, reencoded_with_id,
    DnsMessage, MessageView, QuestionView,
};
use crate::text::{ascii_lower, chars_of, lower_ascii, string_of};
use vstd::utf8::encode_utf8;

verus! {

#[verifier::external_type_specification]
#[verifier::external_body]
pub struct ExInstant(std::time::Instant);

/// What `Duration::as_nanos` returns for a duration.
pub uninterp spec fn duration_nanos(d: std::time::Duration) -> u128;

/// `Duration::as_nanos`: the whole nanoseconds of the duration.
#[verifier::external_body]
fn nanos_of(d: &std::time::Duration) -> (n: u128)
    ensures
        n == duration_nanos(*d),
{
    d.as_nanos()
}

/// `Instant::now`: the current instant; nothing is claimed of it.
#[verifier::external_body]
fn instant_now() -> std::time::Instant {
    std::time::Instant::now()
}

/// `Instant::elapsed`, in whole nanoseconds: the time since `origin`;
/// nothing is claimed of it.
#[verifier::external_body]
fn nanos_since(origin: &std::time::Instant) -> u128 {
    origin.elapsed().as_nanos()
}

/// A cached response and the time (in nanoseconds since the cache was
/// made) at which it expires.
#[derive(Clone, Debug)]
pub struct CacheEntry {
    pub response: Vec<u8>,
    pub expires_at: u128,
}

impl View for CacheEntry {
    type V = (Seq<u8>, u128);

    open spec fn view(&self) -> (Seq<u8>, u128) {
        (self.response@, self.expires_at)
    }
}

/// DNS response cache with TTL-based eviction.
#[derive(Debug)]
pub struct ResponseCache {
    entries: DashMap<Vec<u8>, CacheEntry>,
    ttl_nanos: u128,
    origin: std::time::Instant,
    clock: u128,
}

/// A cache as values: its entries and the lifetime of a new entry.
pub struct CacheView {
    pub entries: Map<Seq<u8>, (Seq<u8>, u128)>,
    pub ttl_nanos: u128,
    /// The latest reading of the cache's clock, in nanoseconds since the
    /// cache was made.
    pub clock: u128,
}

impl View for ResponseCache {
    type V = CacheView;

    closed spec fn view(&self) -> CacheView {
        CacheView {
            entries: entry_contents(self.entries),
            ttl_nanos: self.ttl_nanos,
            clock: self.clock,
        }
    }
}

/// The key part that one question contributes: its name in ASCII lowercase,
/// a zero byte, its record type and class in `Debug` form separated by `:`,
/// and a zero byte.
pub open spec fn question_key(q: QuestionView) -> Seq<u8> {
    encode_utf8(ascii_lower(q.name.text)) + seq![0u8] + encode_utf8(
        record_type_debug_text(q.query_type),
    ) + seq![58u8] + encode_utf8(class_debug_text(q.query_class)) + seq![0u8]
}

/// The key of the questions `qs`.
pub open spec fn questions_key(qs: Seq<QuestionView>) -> Seq<u8>
    decreases qs.len(),
{
    if qs.len() == 0 {
        Seq::empty()
    } else {
        questions_key(qs.drop_last()) + question_key(qs.last())
    }
}

/// The cache key of a request.
pub open spec fn cache_key_of(m: MessageView) -> Seq<u8> {
    questions_key(m.queries)
}

/// What a lookup finds.
pub enum Lookup {
    /// No entry for the key.
    Miss,
    /// An entry whose time has come; it is removed.
    Expired,
    /// A live entry; the response re-encoded with the request's id, if that
    /// succeeds.
    Hit(Option<Seq<u8>>),
}

/// What looking up `key` at time `now` finds, for a request with id `id`.
pub open spec fn lookup(c: CacheView, key: Seq<u8>, id: u16, now: u128) -> Lookup {
    if !c.entries.contains_key(key) {
        Lookup::Miss
    } else if now >= c.entries[key].1 {
        Lookup::Expired
    } else {
        Lookup::Hit(reencoded_with_id(c.entries[key].0, id))
    }
}

/// The cache after a lookup.
pub open spec fn after_lookup(c: CacheView, key: Seq<u8>, id: u16, now: u128) -> CacheView {
    match lookup(c, key, id, now) {
        Lookup::Expired => CacheView { entries: c.entries.remove(key), ..c },
        _ => c,
    }
}

/// When an entry stored at `now` expires: `ttl` later, or at the end of
/// time.
pub open spec fn expiry(now: u128, ttl: u128) -> u128 {
    if now + ttl > u128::MAX {
        u128::MAX
    } else {
        (now + ttl) as u128
    }
}

/// The cache with its clock read at `t`.
pub open spec fn at_clock(c: CacheView, t: u128) -> CacheView {
    CacheView { clock: t, ..c }
}

/// The cache after storing `response` under `key` at time `now`.
pub open spec fn after_insert(c: CacheView, key: Seq<u8>, response: Seq<u8>, now: u128) -> CacheView {
    CacheView {
        entries: c.entries.insert(key, (response, expiry(now, c.ttl_nanos))),
        ..c
    }
}

/// Why a cached response could not be handed out.
#[derive(Clone, Copy, Debug, PartialEq, Eq, Structural)]
pub enum CacheError {
    /// The stored bytes could not be decoded and encoded again.
    Malformed,
}

/// The UTF-8 bytes of `s`, appended to `out`.
fn append_utf8(out: &mut Vec<u8>, s: &str)
    ensures
        final(out)@ == old(out)@ + encode_utf8(s@),
{
    let b = s.as_bytes();
    let ghost o = out@;
    let mut k: usize = 0;
    while k < b.len()
        invariant
            k <= b@.len(),
            out@ == o + b@.subrange(0, k as int),
        decreases b@.len() - k,
    {
        out.push(b[k]);
        k = k + 1;
        assert(out@ =~= o + b@.subrange(0, k as int));
    }
    assert(b@.subrange(0, b@.len() as int) =~= b@);
}

/// The cache key of a request.
pub fn cache_key(request: &DnsMessage) -> (key: Vec<u8>)
    requires
        classes_known(request@),
    ensures
        key@ == cache_key_of(request@),
{
    let mut key: Vec<u8> = Vec::new();
    let mut k: usize = 0;
    let ghost qs = request@.queries;
    while k < request.queries.len()
        invariant
            k <= qs.len(),
            qs == request@.queries,
            classes_known(request@),
            key@ == questions_key(qs.subrange(0, k as int)),
        decreases qs.len() - k,
    {
        let q = &request.queries[k];
        assert(qs[k as int] == q@);
        assert(class_known(qs[k as int].query_class));
        let text = chars_of(q.name.text().as_str());
        let lower = string_of(lower_ascii(text.as_slice()).as_slice());
        append_utf8(&mut key, lower.as_str());
        key.push(0u8);
        let type_text = record_type_debug(q.query_type);
        append_utf8(&mut key, type_text.as_str());
        key.push(58u8);
        let class_text = class_debug(q.query_class);
        append_utf8(&mut key, class_text.as_str());
        key.push(0u8);
        assert(qs.subrange(0, k + 1).drop_last() =~= qs.subrange(0, k as int));
        k = k + 1;
    }
    assert(qs.subrange(0, qs.len() as int) =~= qs);
    key
}

impl ResponseCache {
    /// Create a new response cache with the given TTL.
    pub fn new(ttl: std::time::Duration) -> (c: ResponseCache)
        ensures
            c@.entries == Map::<Seq<u8>, (Seq<u8>, u128)>::empty(),
            c@.ttl_nanos == duration_nanos(ttl),
            c@.clock == 0,
    {
        let ttl_nanos = nanos_of(&ttl);
        ResponseCache { entries: entries_new(), ttl_nanos, origin: instant_now(), clock: 0 }
    }

    /// The time now, in nanoseconds since the cache was made: the clock's
    /// reading, never earlier than an earlier reading.
    pub fn now(&mut self) -> (t: u128)
        ensures
            t >= old(self)@.clock,
            final(self)@ == at_clock(old(self)@, t),
    {
        let reading = nanos_since(&self.origin);
        let t = if reading < self.clock {
            self.clock
        } else {
            reading
        };
        self.clock = t;
        t
    }

    /// Looks up the cached response for a request at time `now`.
    pub fn get_at(&mut self, request: &DnsMessage, now: u128) -> (res: Result<Option<Vec<u8>>, CacheError>)
        requires
            classes_known(request@),
        ensures
            final(self)@ == after_lookup(old(self)@, cache_key_of(request@), request@.id, now),
            match lookup(old(self)@, cache_key_of(request@), request@.id, now) {
                Lookup::Miss => res == Ok::<Option<Vec<u8>>, CacheError>(None),
                Lookup::Expired => res == Ok::<Option<Vec<u8>>, CacheError>(None),
                Lookup::Hit(Some(b)) => res matches Ok(Some(r)) && r@ == b,
                Lookup::Hit(None) => res == Err::<Option<Vec<u8>>, CacheError>(CacheError::Malformed),
            },
    {
        let key = cache_key(request);
        match entries_get(&self.entries, key.as_slice()) {
            None => Ok(None),
            Some(entry) => {
                if now >= entry.expires_at {
                    entries_remove(&mut self.entries, key.as_slice());
                    Ok(None)
                } else {
                    match with_message_id(entry.response.as_slice(), request.id) {
                        Some(b) => Ok(Some(b)),
                        None => Err(CacheError::Malformed),
                    }
                }
            },
        }
    }

    /// Try to get a cached response for a DNS request, at the time the
    /// clock gives, which is no earlier than any earlier reading.
    pub fn get(&mut self, request: &DnsMessage) -> (res: Result<Option<Vec<u8>>, CacheError>)
        requires
            classes_known(request@),
        ensures
            exists|now: u128|
                {
                    &&& now >= old(self)@.clock
                    &&& final(self)@ == after_lookup(
                        at_clock(old(self)@, now),
                        cache_key_of(request@),
                        request@.id,
                        now,
                    )
                    &&& match lookup(old(self)@, cache_key_of(request@), request@.id, now) {
                        Lookup::Miss => res == Ok::<Option<Vec<u8>>, CacheError>(None),
                        Lookup::Expired => res == Ok::<Option<Vec<u8>>, CacheError>(None),
                        Lookup::Hit(Some(b)) => res matches Ok(Some(r)) && r@ == b,
                        Lookup::Hit(None) => res == Err::<Option<Vec<u8>>, CacheError>(
                            CacheError::Malformed,
                        ),
                    }
                },
    {
        let now = self.now();
        self.get_at(request, now)
    }

    /// Stores a response for a request at time `now`.
    pub fn insert_at(&mut self, request: &DnsMessage, response: Vec<u8>, now: u128)
        requires
            classes_known(request@),
        ensures
            final(self)@ == after_insert(old(self)@, cache_key_of(request@), response@, now),
    {
        let key = cache_key(request);
        let expires_at = now.saturating_add(self.ttl_nanos);
        entries_insert(&mut self.entries, key, CacheEntry { response, expires_at });
    }

    /// Insert a response into the cache, at the time the clock gives, which
    /// is no earlier than any earlier reading.
    pub fn insert(&mut self, request: &DnsMessage, response: Vec<u8>)
        requires
            classes_known(request@),
        ensures
            exists|now: u128|
                now >= old(self)@.clock && final(self)@ == after_insert(
                    at_clock(old(self)@, now),
                    cache_key_of(request@),
                    response@,
                    now,
                ),
    {
        let now = self.now();
        self.insert_at(request, response, now);
    }

    /// Get the number of cached entries.
    pub fn len(&self) -> (n: usize)
        ensures
            n == self@.entries.dom().len(),
    {
        entries_len(&self.entries)
    }

    /// Check if cache is empty.
    pub fn is_empty(&self) -> (b: bool)
        ensures
            b == (self@.entries.dom().len() == 0),
    {
        entries_len(&self.entries) == 0
    }
}

/// A response stored for a request is handed out, with the asking request's
/// id, to any request with the same key before it expires.
pub proof fn lemma_hit_after_insert(
    c: CacheView,
    key: Seq<u8>,
    response: Seq<u8>,
    stored_at: u128,
    id: u16,
    now: u128,
)
    requires
        (now as int) < expiry(stored_at, c.ttl_nanos),
    ensures
        lookup(after_insert(c, key, response, stored_at), key, id, now) == Lookup::Hit(
            reencoded_with_id(response, id),
        ),
        after_lookup(after_insert(c, key, response, stored_at), key, id, now) == after_insert(
            c,
            key,
            response,
            stored_at,
        ),
{
}

/// Once its time has come, a stored response is no longer handed out, and
/// the lookup removes it.
pub proof fn lemma_expired_after_insert(
    c: CacheView,
    key: Seq<u8>,
    response: Seq<u8>,
    stored_at: u128,
    id: u16,
    now: u128,
)
    requires
        (now as int) >= expiry(stored_at, c.ttl_nanos),
    ensures
        lookup(after_insert(c, key, response, stored_at), key, id, now) == Lookup::Expired,
        !after_lookup(after_insert(c, key, response, stored_at), key, id, now).entries.contains_key(
            key,
        ),
{
}

/// Storing again under the same key replaces the entry: the keys held are
/// those after the last store alone.
pub proof fn lemma_overwrite_keeps_keys(
    c: CacheView,
    key: Seq<u8>,
    first: Seq<u8>,
    second: Seq<u8>,
    t1: u128,
    t2: u128,
)
    ensures
        after_insert(after_insert(c, key, first, t1), key, second, t2).entries.dom()
            == after_insert(c, key, second, t2).entries.dom(),
        after_insert(after_insert(c, key, first, t1), key, second, t2).entries[key] == (
            second,
            expiry(t2, c.ttl_nanos),
        ),
{
    assert(after_insert(after_insert(c, key, first, t1), key, second, t2).entries.dom()
        =~= after_insert(c, key, second, t2).entries.dom());
}

/// Storing under one key leaves lookups of another key as they were.
pub proof fn lemma_insert_other_key(
    c: CacheView,
    key: Seq<u8>,
    other: Seq<u8>,
    response: Seq<u8>,
    stored_at: u128,
    id: u16,
    now: u128,
)
    requires
        key != other,
    ensures
        lookup(after_insert(c, key, response, stored_at), other, id, now) == lookup(
            c,
            other,
            id,
            now,
        ),
{
}


/// Whether two requests ask the same questions: names equal but for ASCII
/// case, with the same types and classes, in the same order.
pub open spec fn same_questions(a: MessageView, b: MessageView) -> bool {
    &&& a.queries.len() == b.queries.len()
    &&& forall|i: int|
        0 <= i < a.queries.len() ==> {
            &&& ascii_lower(#[trigger] a.queries[i].name.text) == ascii_lower(b.queries[i].name.text)
            &&& a.queries[i].query_type == b.queries[i].query_type
            &&& a.queries[i].query_class == b.queries[i].query_class
        }
}

proof fn lemma_same_questions_key(a: Seq<QuestionView>, b: Seq<QuestionView>)
    requires
        a.len() == b.len(),
        forall|i: int|
            0 <= i < a.len() ==> {
                &&& ascii_lower(#[trigger] a[i].name.text) == ascii_lower(b[i].name.text)
                &&& a[i].query_type == b[i].query_type
                &&& a[i].query_class == b[i].query_class
            },
    ensures
        questions_key(a) == questions_key(b),
    decreases a.len(),
{
    if a.len() > 0 {
        let n = a.len() - 1;
        assert(ascii_lower(a[n].name.text) == ascii_lower(b[n].name.text));
        assert forall|i: int| 0 <= i < a.drop_last().len() implies {
            &&& ascii_lower(#[trigger] a.drop_last()[i].name.text) == ascii_lower(
                b.drop_last()[i].name.text,
            )
            &&& a.drop_last()[i].query_type == b.drop_last()[i].query_type
            &&& a.drop_last()[i].query_class == b.drop_last()[i].query_class
        } by {
            assert(ascii_lower(a[i].name.text) == ascii_lower(b[i].name.text));
        }
        lemma_same_questions_key(a.drop_last(), b.drop_last());
    }
}

/// Two requests that ask the same questions have the same cache key.
pub proof fn lemma_same_questions_same_key(a: MessageView, b: MessageView)
    requires
        same_questions(a, b),
    ensures
        cache_key_of(a) == cache_key_of(b),
{
    lemma_same_questions_key(a.queries, b.queries);
}

/// Storing a response for one request and then another for a request that
/// asks the same questions keeps a single entry for them, and until the
/// second entry expires a lookup for the first request hands out the second
/// response with the first request's id.
pub proof fn lemma_store_again_same_questions(
    c: CacheView,
    a: MessageView,
    b: MessageView,
    first: Seq<u8>,
    second: Seq<u8>,
    t1: u128,
    t2: u128,
    now: u128,
)
    requires
        same_questions(a, b),
        (now as int) < expiry(t2, c.ttl_nanos),
    ensures
        ({
            let once = after_insert(c, cache_key_of(a), first, t1);
            let twice = after_insert(once, cache_key_of(b), second, t2);
            &&& twice.entries.dom() == once.entries.dom()
            &&& lookup(twice, cache_key_of(a), a.id, now) == Lookup::Hit(
                reencoded_with_id(second, a.id),
            )
        }),
{
    lemma_same_questions_same_key(a, b);
    let once = after_insert(c, cache_key_of(a), first, t1);
    let twice = after_insert(once, cache_key_of(b), second, t2);
    assert(twice.entries.dom() =~= once.entries.dom());
}


/// With a lifetime of zero, an entry stored at one time has expired at that
/// time and at every later one.
pub proof fn lemma_zero_ttl_expired(
    c: CacheView,
    key: Seq<u8>,
    response: Seq<u8>,
    stored_at: u128,
    id: u16,
    now: u128,
)
    requires
        c.ttl_nanos == 0,
        stored_at <= now,
    ensures
        lookup(after_insert(c, key, response, stored_at), key, id, now) == Lookup::Expired,
{
}


/// Once the cache's clock has reached an entry's expiry, the entry is never
/// handed out again: a lookup at any reading no earlier than the clock,
/// which is every reading `now`, `get` and `insert` take from then on,
/// finds it expired and removes it.
pub proof fn lemma_expired_for_later_readings(
    c: CacheView,
    key: Seq<u8>,
    response: Seq<u8>,
    stored_at: u128,
    id: u16,
    t: u128,
)
    requires
        (c.clock as int) >= expiry(stored_at, c.ttl_nanos),
        t >= c.clock,
    ensures
        lookup(after_insert(c, key, response, stored_at), key, id, t) == Lookup::Expired,
        !after_lookup(after_insert(c, key, response, stored_at), key, id, t).entries.contains_key(
            key,
        ),
{
}

} // verus!
