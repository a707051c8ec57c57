//! Query statistics: counts of queries, blocks, cache hits and misses, and
//! how often each domain was blocked.
//!
//! Counters wrap around at `u64::MAX`, as the atomic counters of the daemon
//! do.

use vstd::prelude::*;

use dashmap::DashMap;

use crate::collections::{counter_clear, counter_contents, counter_get, counter_insert, counter_items, counter_new};

verus! {

/// How many blocked domains a report lists at most.
pub const TOP_BLOCKED: usize = 100;

/// Query statistics.
#[derive(Clone, Debug)]
pub struct QueryStats {
    /// Total queries processed.
    pub total_queries: u64,
    /// Total queries blocked.
    pub total_blocked: u64,
    /// Total queries allowed.
    pub total_allowed: u64,
    /// Cache hits.
    pub cache_hits: u64,
    /// Cache misses.
    pub cache_misses: u64,
    /// The most blocked domains with their counts, most blocked first.
    pub blocked_by_domain: Vec<(String, u64)>,
}

/// Query log entry.
#[derive(Clone, Debug)]
pub struct QueryLogEntry {
    /// When the query was processed, in seconds since the Unix epoch.
    pub timestamp: u64,
    /// Domain that was queried.
    pub domain: String,
    /// Whether query was blocked.
    pub blocked: bool,
    /// Protocol used: "UDP" or "TCP".
    pub protocol: String,
}

/// The logger's counters and per-domain block counts.
pub struct StatsView {
    pub total: u64,
    pub blocked: u64,
    pub allowed: u64,
    pub hits: u64,
    pub misses: u64,
    pub domains: Map<Seq<char>, u64>,
}

/// Global query logger.
pub struct QueryLogger {
    total_queries: u64,
    total_blocked: u64,
    total_allowed: u64,
    cache_hits: u64,
    cache_misses: u64,
    blocked_domains: DashMap<String, u64>,
}

impl View for QueryLogger {
    type V = StatsView;

    closed spec fn view(&self) -> StatsView {
        StatsView {
            total: self.total_queries,
            blocked: self.total_blocked,
            allowed: self.total_allowed,
            hits: self.cache_hits,
            misses: self.cache_misses,
            domains: counter_contents(self.blocked_domains),
        }
    }
}

/// One more, wrapping around to zero.
pub open spec fn inc(x: u64) -> u64 {
    if x == u64::MAX {
        0
    } else {
        (x + 1) as u64
    }
}

fn incr(x: u64) -> (r: u64)
    ensures
        r == inc(x),
{
    if x == u64::MAX {
        0
    } else {
        x + 1
    }
}

/// The statistics of a new logger.
pub open spec fn fresh() -> StatsView {
    StatsView { total: 0, blocked: 0, allowed: 0, hits: 0, misses: 0, domains: Map::empty() }
}

/// After a blocked query for `domain`.
pub open spec fn after_blocked(v: StatsView, domain: Seq<char>) -> StatsView {
    StatsView {
        total: inc(v.total),
        blocked: inc(v.blocked),
        domains: v.domains.insert(
            domain,
            if v.domains.contains_key(domain) {
                inc(v.domains[domain])
            } else {
                1
            },
        ),
        ..v
    }
}

/// After an allowed query.
pub open spec fn after_allowed(v: StatsView) -> StatsView {
    StatsView { total: inc(v.total), allowed: inc(v.allowed), ..v }
}

/// After a cache hit.
pub open spec fn after_hit(v: StatsView) -> StatsView {
    StatsView { hits: inc(v.hits), ..v }
}

/// After a cache miss.
pub open spec fn after_miss(v: StatsView) -> StatsView {
    StatsView { misses: inc(v.misses), ..v }
}

/// Whether the total counts exactly the blocked and allowed queries, modulo
/// 2^64.
pub open spec fn totals_agree(v: StatsView) -> bool {
    v.total as int == (v.blocked as int + v.allowed as int) % 0x1_0000_0000_0000_0000
}

/// Whether a list of domain counts is a report of `m` limited to `limit`
/// entries: entries of `m`, no domain twice, most blocked first, as many as
/// `m` has up to the limit, and no domain left out that was blocked more
/// often than the last listed.
pub open spec fn top_report(m: Map<Seq<char>, u64>, out: Seq<(Seq<char>, u64)>, limit: nat) -> bool {
    &&& out.len() == if m.dom().len() < limit {
        m.dom().len()
    } else {
        limit
    }
    &&& forall|j: int| 0 <= j < out.len() ==> m.contains_key(#[trigger] out[j].0) && m[out[j].0] == out[j].1
    &&& forall|j: int, k: int| 0 <= j < k < out.len() ==> #[trigger] out[j].0 != #[trigger] out[k].0
    &&& forall|j: int, k: int| 0 <= j <= k < out.len() ==> #[trigger] out[j].1 >= #[trigger] out[k].1
    &&& forall|d: Seq<char>|
        #![trigger m.contains_key(d)]
        m.contains_key(d) && (forall|j: int| 0 <= j < out.len() ==> out[j].0 != d) ==> out.len() > 0
            && m[d] <= out.last().1
}

/// The pairs of a list, as values.
pub open spec fn pairs(v: Seq<(String, u64)>) -> Seq<(Seq<char>, u64)> {
    v.map_values(|p: (String, u64)| (p.0@, p.1))
}

/// Whether index `i` is among the selected or the untaken ones.
spec fn placed(sel: Seq<int>, untaken: Seq<usize>, i: int) -> bool {
    (exists|j: int| 0 <= j < sel.len() && sel[j] == i) || (exists|a: int|
        0 <= a < untaken.len() && untaken[a] as int == i)
}

/// The `limit` most frequent of a list of distinct domains with counts,
/// most frequent first.
fn top_counts(items: &Vec<(String, u64)>, limit: usize) -> (out: Vec<(String, u64)>)
    requires
        limit > 0,
        forall|i: int, j: int|
            0 <= i < j < items@.len() ==> #[trigger] items@[i].0@ != #[trigger] items@[j].0@,
    ensures
        out@.len() == if items@.len() < limit {
            items@.len() as int
        } else {
            limit as int
        },
        forall|j: int| 0 <= j < out@.len() ==> pairs(items@).contains(#[trigger] pairs(out@)[j]),
        forall|j: int, k: int|
            0 <= j < k < out@.len() ==> #[trigger] out@[j].0@ != #[trigger] out@[k].0@,
        forall|j: int, k: int| 0 <= j <= k < out@.len() ==> #[trigger] out@[j].1 >= #[trigger] out@[k].1,
        forall|i: int|
            0 <= i < items@.len() && (forall|j: int| 0 <= j < out@.len() ==> out@[j].0@ != items@[i].0@)
                ==> out@.len() > 0 && #[trigger] items@[i].1 <= out@.last().1,
{
    let n = items.len();
    let mut untaken: Vec<usize> = Vec::new();
    let mut t: usize = 0;
    while t < n
        invariant
            t <= n == items@.len(),
            untaken@.len() == t,
            forall|a: int| 0 <= a < t ==> #[trigger] untaken@[a] == a,
        decreases n - t,
    {
        untaken.push(t);
        t = t + 1;
    }
    let mut out: Vec<(String, u64)> = Vec::new();
    let ghost mut sel: Seq<int> = Seq::empty();
    assert forall|i: int| 0 <= i < n implies #[trigger] placed(sel, untaken@, i) by {
        assert(untaken@[i] as int == i);
    }
    while out.len() < limit && untaken.len() > 0
        invariant
            n == items@.len(),
            forall|i: int, j: int|
                0 <= i < j < items@.len() ==> #[trigger] items@[i].0@ != #[trigger] items@[j].0@,
            out@.len() + untaken@.len() == n,
            out@.len() <= limit,
            sel.len() == out@.len(),
            forall|j: int| 0 <= j < sel.len() ==> 0 <= #[trigger] sel[j] < n,
            forall|a: int| 0 <= a < untaken@.len() ==> #[trigger] untaken@[a] < n,
            forall|j: int| 0 <= j < out@.len() ==> #[trigger] out@[j] == items@[sel[j]],
            forall|j: int, k: int| 0 <= j < k < sel.len() ==> #[trigger] sel[j] != #[trigger] sel[k],
            forall|a: int, b: int|
                0 <= a < b < untaken@.len() ==> #[trigger] untaken@[a] != #[trigger] untaken@[b],
            forall|j: int, a: int|
                0 <= j < sel.len() && 0 <= a < untaken@.len() ==> #[trigger] sel[j]
                    != #[trigger] untaken@[a] as int,
            forall|i: int| 0 <= i < n ==> #[trigger] placed(sel, untaken@, i),
            forall|j: int, k: int| 0 <= j <= k < out@.len() ==> #[trigger] out@[j].1 >= #[trigger] out@[k].1,
            forall|a: int|
                0 <= a < untaken@.len() && out@.len() > 0 ==> #[trigger] items@[untaken@[a] as int].1
                    <= out@.last().1,
        decreases untaken@.len(),
    {
        let mut best: usize = 0;
        let mut a: usize = 1;
        while a < untaken.len()
            invariant
                n == items@.len(),
                0 <= best < untaken@.len(),
                1 <= a <= untaken@.len(),
                forall|b: int| 0 <= b < untaken@.len() ==> #[trigger] untaken@[b] < n,
                forall|b: int|
                    0 <= b < a ==> #[trigger] items@[untaken@[b] as int].1 <= items@[untaken@[best as int] as int].1,
            decreases untaken@.len() - a,
        {
            if items[untaken[a]].1 > items[untaken[best]].1 {
                best = a;
            }
            a = a + 1;
        }
        let ghost u0 = untaken@;
        let u = untaken.remove(best);
        let ghost o0 = out@;
        let pick = (items[u].0.clone(), items[u].1);
        out.push(pick);
        let ghost old_sel = sel;
        proof {
            sel = sel.push(u as int);
            assert(out@[out@.len() - 1] == items@[u as int]);
            assert forall|j: int| 0 <= j < out@.len() implies #[trigger] out@[j] == items@[sel[j]] by {
                if j < o0.len() {
                    assert(out@[j] == o0[j]);
                }
            }
            assert forall|j: int, k: int| 0 <= j <= k < out@.len() implies #[trigger] out@[j].1
                >= #[trigger] out@[k].1 by {
                if k == out@.len() - 1 && j < k {
                    assert(o0[j].1 >= o0.last().1);
                    let bj = choose|b: int| 0 <= b < u0.len() && u0[b] == u;
                    assert(items@[u0[best as int] as int].1 <= o0.last().1);
                }
            }
            assert forall|b: int|
                0 <= b < untaken@.len() && out@.len() > 0 implies #[trigger] items@[untaken@[b] as int].1
                <= out@.last().1 by {
                let ob = if b < best { b } else { b + 1 };
                assert(untaken@[b] == u0[ob]);
            }
            assert forall|j: int, k: int| 0 <= j < k < sel.len() implies #[trigger] sel[j]
                != #[trigger] sel[k] by {
                if k == sel.len() - 1 {
                    assert(u0[best as int] == u);
                }
            }
            assert forall|j: int, b: int|
                0 <= j < sel.len() && 0 <= b < untaken@.len() implies #[trigger] sel[j]
                != #[trigger] untaken@[b] as int by {
                let ob = if b < best { b } else { b + 1 };
                assert(untaken@[b] == u0[ob]);
            }
            assert forall|b1: int, b2: int|
                0 <= b1 < b2 < untaken@.len() implies #[trigger] untaken@[b1] != #[trigger] untaken@[b2] by {
                let o1 = if b1 < best { b1 } else { b1 + 1 };
                let o2 = if b2 < best { b2 } else { b2 + 1 };
                assert(untaken@[b1] == u0[o1]);
                assert(untaken@[b2] == u0[o2]);
            }
            assert forall|i: int| 0 <= i < n implies #[trigger] placed(sel, untaken@, i) by {
                assert(placed(old_sel, u0, i));
                if exists|b: int| 0 <= b < u0.len() && u0[b] as int == i {
                    let b = choose|b: int| 0 <= b < u0.len() && u0[b] as int == i;
                    if b == best {
                        assert(sel[sel.len() - 1] == i);
                    } else if b < best {
                        assert(untaken@[b] == u0[b]);
                    } else {
                        assert(untaken@[b - 1] == u0[b]);
                    }
                } else {
                    let j = choose|j: int| 0 <= j < old_sel.len() && old_sel[j] == i;
                    assert(sel[j] == i);
                }
            }
        }
    }
    proof {
        assert forall|j: int| 0 <= j < out@.len() implies pairs(items@).contains(
            #[trigger] pairs(out@)[j],
        ) by {
            assert(out@[j] == items@[sel[j]]);
            assert(0 <= sel[j] < n);
            assert(pairs(out@)[j] == pairs(items@)[sel[j]]);
        }
        assert forall|j: int, k: int| 0 <= j < k < out@.len() implies #[trigger] out@[j].0@
            != #[trigger] out@[k].0@ by {
            assert(out@[j] == items@[sel[j]]);
            assert(out@[k] == items@[sel[k]]);
            if sel[j] < sel[k] {
                assert(items@[sel[j]].0@ != items@[sel[k]].0@);
            } else {
                assert(items@[sel[k]].0@ != items@[sel[j]].0@);
            }
        }
        assert forall|i: int|
            0 <= i < items@.len() && (forall|j: int| 0 <= j < out@.len() ==> out@[j].0@ != items@[i].0@)
                implies out@.len() > 0 && #[trigger] items@[i].1 <= out@.last().1 by {
            assert(placed(sel, untaken@, i));
            if exists|j: int| 0 <= j < sel.len() && sel[j] == i {
                let j = choose|j: int| 0 <= j < sel.len() && sel[j] == i;
                assert(out@[j] == items@[i]);
            } else {
                let b = choose|b: int| 0 <= b < untaken@.len() && untaken@[b] as int == i;
                assert(out@.len() == limit);
            }
        }
    }
    out
}

impl QueryLogger {
    /// Create a new query logger.
    pub fn new() -> (l: QueryLogger)
        ensures
            l@ == fresh(),
    {
        QueryLogger {
            total_queries: 0,
            total_blocked: 0,
            total_allowed: 0,
            cache_hits: 0,
            cache_misses: 0,
            blocked_domains: counter_new(),
        }
    }

    /// Record a query that was blocked.
    pub fn record_blocked(&mut self, domain: &str)
        ensures
            final(self)@ == after_blocked(old(self)@, domain@),
    {
        self.total_queries = incr(self.total_queries);
        self.total_blocked = incr(self.total_blocked);
        let count = match counter_get(&self.blocked_domains, domain) {
            Some(c) => incr(c),
            None => 1,
        };
        counter_insert(&mut self.blocked_domains, domain.to_owned(), count);
    }

    /// Record a query that was allowed.
    pub fn record_allowed(&mut self)
        ensures
            final(self)@ == after_allowed(old(self)@),
    {
        self.total_queries = incr(self.total_queries);
        self.total_allowed = incr(self.total_allowed);
    }

    /// Record a cache hit.
    pub fn record_cache_hit(&mut self)
        ensures
            final(self)@ == after_hit(old(self)@),
    {
        self.cache_hits = incr(self.cache_hits);
    }

    /// Record a cache miss.
    pub fn record_cache_miss(&mut self)
        ensures
            final(self)@ == after_miss(old(self)@),
    {
        self.cache_misses = incr(self.cache_misses);
    }

    /// Get current statistics.
    pub fn get_stats(&self) -> (s: QueryStats)
        ensures
            s.total_queries == self@.total,
            s.total_blocked == self@.blocked,
            s.total_allowed == self@.allowed,
            s.cache_hits == self@.hits,
            s.cache_misses == self@.misses,
            top_report(self@.domains, pairs(s.blocked_by_domain@), TOP_BLOCKED as nat),
    {
        let items = counter_items(&self.blocked_domains);
        let top = top_counts(&items, TOP_BLOCKED);
        proof {
            let m = self@.domains;
            let out = pairs(top@);
            assert forall|j: int| 0 <= j < out.len() implies m.contains_key(#[trigger] out[j].0)
                && m[out[j].0] == out[j].1 by {
                assert(pairs(items@).contains(pairs(top@)[j]));
                let i = choose|i: int| 0 <= i < pairs(items@).len() && pairs(items@)[i] == pairs(top@)[j];
                assert(pairs(items@)[i] == (items@[i].0@, items@[i].1));
            }
            assert forall|j: int, k: int| 0 <= j < k < out.len() implies #[trigger] out[j].0
                != #[trigger] out[k].0 by {
                assert(out[j].0 == top@[j].0@);
                assert(out[k].0 == top@[k].0@);
            }
            assert forall|j: int, k: int| 0 <= j <= k < out.len() implies #[trigger] out[j].1
                >= #[trigger] out[k].1 by {
                assert(out[j].1 == top@[j].1);
                assert(out[k].1 == top@[k].1);
            }
            assert forall|d: Seq<char>|
                #![trigger m.contains_key(d)]
                m.contains_key(d) && (forall|j: int| 0 <= j < out.len() ==> out[j].0 != d) implies out.len()
                > 0 && m[d] <= out.last().1 by {
                let i = choose|i: int| 0 <= i < items@.len() && #[trigger] items@[i].0@ == d;
                assert forall|j: int| 0 <= j < top@.len() implies top@[j].0@ != items@[i].0@ by {
                    assert(out[j].0 == top@[j].0@);
                }
                assert(items@[i].1 <= top@.last().1);
            }
        }
        QueryStats {
            total_queries: self.total_queries,
            total_blocked: self.total_blocked,
            total_allowed: self.total_allowed,
            cache_hits: self.cache_hits,
            cache_misses: self.cache_misses,
            blocked_by_domain: top,
        }
    }

    /// Reset statistics.
    pub fn reset(&mut self)
        ensures
            final(self)@ == fresh(),
    {
        self.total_queries = 0;
        self.total_blocked = 0;
        self.total_allowed = 0;
        self.cache_hits = 0;
        self.cache_misses = 0;
        counter_clear(&mut self.blocked_domains);
    }
}

impl Default for QueryLogger {
    fn default() -> (l: Self)
        ensures
            l@ == fresh(),
    {
        QueryLogger::new()
    }
}

/// The total of a logger counts its blocked and allowed queries (modulo
/// 2^64): it does so at the start, and every recording keeps it so.
pub proof fn lemma_totals_agree(v: StatsView, domain: Seq<char>)
    ensures
        totals_agree(fresh()),
        totals_agree(v) ==> totals_agree(after_blocked(v, domain)),
        totals_agree(v) ==> totals_agree(after_allowed(v)),
        totals_agree(v) ==> totals_agree(after_hit(v)),
        totals_agree(v) ==> totals_agree(after_miss(v)),
{
}

/// A blocked domain's count grows by one with each block recorded for it
/// (until it wraps around), and other domains' counts stay.
pub proof fn lemma_blocked_counts(v: StatsView, domain: Seq<char>, other: Seq<char>)
    requires
        domain != other,
    ensures
        after_blocked(v, domain).domains[domain] == (if v.domains.contains_key(domain) {
            inc(v.domains[domain])
        } else {
            1
        }),
        after_blocked(v, domain).domains.contains_key(other) == v.domains.contains_key(other),
        v.domains.contains_key(other) ==> after_blocked(v, domain).domains[other] == v.domains[other],
{
}

} // verus!
