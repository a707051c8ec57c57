//! The query log's records and the summaries computed from them. The log
//! itself is an SQLite database that the daemon keeps outside this library.

use vstd::prelude::*;

use crate::text::chars_of;

verus! {

/// Action taken for a DNS query.
#[derive(Debug, Clone, Copy, PartialEq, Eq, Structural)]
pub enum QueryAction {
    Blocked,
    Allowed,
    Cached,
    Error,
}

/// The text that the log stores for an action.
pub open spec fn action_text(a: QueryAction) -> Seq<char> {
    match a {
        QueryAction::Blocked => "blocked"@,
        QueryAction::Allowed => "allowed"@,
        QueryAction::Cached => "cached"@,
        QueryAction::Error => "error"@,
    }
}

impl QueryAction {
    /// The text that the log stores for the action.
    pub fn as_str(&self) -> (s: &'static str)
        ensures
            s@ == action_text(*self),
    {
        match self {
            QueryAction::Blocked => "blocked",
            QueryAction::Allowed => "allowed",
            QueryAction::Cached => "cached",
            QueryAction::Error => "error",
        }
    }
}

/// A single query log entry.
#[derive(Debug, Clone)]
pub struct LogEntry {
    pub id: i64,
    pub timestamp: i64,
    pub domain: String,
    pub query_type: String,
    pub action: String,
    pub upstream_ms: Option<i64>,
    pub client_ip: Option<String>,
}

/// Summary statistics for a time range.
#[derive(Debug, Clone)]
pub struct StatsSummary {
    pub total: i64,
    pub blocked: i64,
    pub allowed: i64,
    pub cached: i64,
    pub errors: i64,
}

impl Default for StatsSummary {
    fn default() -> (s: Self)
        ensures
            s.total == 0 && s.blocked == 0 && s.allowed == 0 && s.cached == 0 && s.errors == 0,
    {
        StatsSummary { total: 0, blocked: 0, allowed: 0, cached: 0, errors: 0 }
    }
}

/// The rows of a grouped count, as values.
pub open spec fn rows_view(rows: Seq<(String, i64)>) -> Seq<(Seq<char>, i64)> {
    rows.map_values(|r: (String, i64)| (r.0@, r.1))
}

/// The sum of the counts of some rows.
pub open spec fn count_sum(rows: Seq<(Seq<char>, i64)>) -> int
    decreases rows.len(),
{
    if rows.len() == 0 {
        0
    } else {
        count_sum(rows.drop_last()) + rows.last().1
    }
}

/// The sum of the counts of the rows for one action.
pub open spec fn action_sum(rows: Seq<(Seq<char>, i64)>, action: Seq<char>) -> int
    decreases rows.len(),
{
    if rows.len() == 0 {
        0
    } else {
        action_sum(rows.drop_last(), action) + if rows.last().0 == action {
            rows.last().1 as int
        } else {
            0
        }
    }
}

/// Whether a sum stays within `i64` however far it has gone.
pub open spec fn in_i64(x: int) -> bool {
    i64::MIN <= x <= i64::MAX
}

/// Whether every running sum over the rows, of all counts and of the counts
/// of each action, stays within `i64`.
pub open spec fn sums_fit(rows: Seq<(Seq<char>, i64)>) -> bool {
    forall|k: int|
        0 <= k <= rows.len() ==> {
            let p = #[trigger] rows.subrange(0, k);
            &&& in_i64(count_sum(p))
            &&& in_i64(action_sum(p, "blocked"@))
            &&& in_i64(action_sum(p, "allowed"@))
            &&& in_i64(action_sum(p, "cached"@))
            &&& in_i64(action_sum(p, "error"@))
        }
}

/// Whether summing the rows stays within `i64` all the way: the condition
/// under which `summarize_counts` may be called.
pub fn counts_fit(rows: &Vec<(String, i64)>) -> (b: bool)
    ensures
        b == sums_fit(rows_view(rows@)),
{
    let ghost rv = rows_view(rows@);
    let mut total: i128 = 0;
    let mut blocked: i128 = 0;
    let mut allowed: i128 = 0;
    let mut cached: i128 = 0;
    let mut errors: i128 = 0;
    let mut k: usize = 0;
    assert(rv.subrange(0, 0) =~= Seq::<(Seq<char>, i64)>::empty());
    while k < rows.len()
        invariant
            k <= rows@.len(),
            rv == rows_view(rows@),
            forall|j: int| 0 <= j <= k ==> {
                let p = #[trigger] rv.subrange(0, j);
                &&& in_i64(count_sum(p))
                &&& in_i64(action_sum(p, "blocked"@))
                &&& in_i64(action_sum(p, "allowed"@))
                &&& in_i64(action_sum(p, "cached"@))
                &&& in_i64(action_sum(p, "error"@))
            },
            total == count_sum(rv.subrange(0, k as int)),
            blocked == action_sum(rv.subrange(0, k as int), "blocked"@),
            allowed == action_sum(rv.subrange(0, k as int), "allowed"@),
            cached == action_sum(rv.subrange(0, k as int), "cached"@),
            errors == action_sum(rv.subrange(0, k as int), "error"@),
        decreases rows@.len() - k,
    {
        let ghost next = rv.subrange(0, k + 1);
        assert(next.drop_last() =~= rv.subrange(0, k as int));
        assert(next.last() == rv[k as int]);
        assert(rv[k as int] == (rows@[k as int].0@, rows@[k as int].1));
        proof {
            reveal_strlit("blocked");
            reveal_strlit("allowed");
            reveal_strlit("cached");
            reveal_strlit("error");
            assert("blocked"@[0] != "allowed"@[0]);
            assert("blocked"@.len() != "cached"@.len());
            assert("blocked"@.len() != "error"@.len());
            assert("allowed"@.len() != "cached"@.len());
            assert("allowed"@.len() != "error"@.len());
            assert("cached"@.len() != "error"@.len());
        }
        let count = rows[k].1 as i128;
        let action = chars_of(rows[k].0.as_str());
        total = total + count;
        if crate::text::is_literal(action.as_slice(), "blocked") {
            blocked = blocked + count;
        } else if crate::text::is_literal(action.as_slice(), "allowed") {
            allowed = allowed + count;
        } else if crate::text::is_literal(action.as_slice(), "cached") {
            cached = cached + count;
        } else if crate::text::is_literal(action.as_slice(), "error") {
            errors = errors + count;
        }
        let fits = i64::MIN as i128 <= total && total <= i64::MAX as i128
            && i64::MIN as i128 <= blocked && blocked <= i64::MAX as i128
            && i64::MIN as i128 <= allowed && allowed <= i64::MAX as i128
            && i64::MIN as i128 <= cached && cached <= i64::MAX as i128
            && i64::MIN as i128 <= errors && errors <= i64::MAX as i128;
        if !fits {
            assert(!(in_i64(count_sum(next)) && in_i64(action_sum(next, "blocked"@)) && in_i64(
                action_sum(next, "allowed"@),
            ) && in_i64(action_sum(next, "cached"@)) && in_i64(action_sum(next, "error"@))));
            return false;
        }
        k = k + 1;
    }
    assert(rv.subrange(0, rv.len() as int) =~= rv);
    true
}

/// Query counts by action from grouped rows of (action, count): the total
/// of all counts, and the counts of `blocked`, `allowed`, `cached` and
/// `error` rows; rows of other actions count in the total alone.
pub fn summarize_counts(rows: &Vec<(String, i64)>) -> (s: StatsSummary)
    requires
        sums_fit(rows_view(rows@)),
    ensures
        s.total == count_sum(rows_view(rows@)),
        s.blocked == action_sum(rows_view(rows@), "blocked"@),
        s.allowed == action_sum(rows_view(rows@), "allowed"@),
        s.cached == action_sum(rows_view(rows@), "cached"@),
        s.errors == action_sum(rows_view(rows@), "error"@),
{
    let ghost rv = rows_view(rows@);
    let mut total: i64 = 0;
    let mut blocked: i64 = 0;
    let mut allowed: i64 = 0;
    let mut cached: i64 = 0;
    let mut errors: i64 = 0;
    let mut k: usize = 0;
    while k < rows.len()
        invariant
            k <= rows@.len(),
            rv == rows_view(rows@),
            sums_fit(rv),
            total == count_sum(rv.subrange(0, k as int)),
            blocked == action_sum(rv.subrange(0, k as int), "blocked"@),
            allowed == action_sum(rv.subrange(0, k as int), "allowed"@),
            cached == action_sum(rv.subrange(0, k as int), "cached"@),
            errors == action_sum(rv.subrange(0, k as int), "error"@),
        decreases rows@.len() - k,
    {
        let ghost next = rv.subrange(0, k + 1);
        assert(next.drop_last() =~= rv.subrange(0, k as int));
        assert(next.last() == rv[k as int]);
        assert(rv[k as int] == (rows@[k as int].0@, rows@[k as int].1));
        assert(in_i64(count_sum(next)));
        assert(in_i64(action_sum(next, "blocked"@)));
        assert(in_i64(action_sum(next, "allowed"@)));
        assert(in_i64(action_sum(next, "cached"@)));
        assert(in_i64(action_sum(next, "error"@)));
        proof {
            reveal_strlit("blocked");
            reveal_strlit("allowed");
            reveal_strlit("cached");
            reveal_strlit("error");
            assert("blocked"@[0] != "allowed"@[0]);
            assert("blocked"@.len() != "cached"@.len());
            assert("blocked"@.len() != "error"@.len());
            assert("allowed"@.len() != "cached"@.len());
            assert("allowed"@.len() != "error"@.len());
            assert("cached"@.len() != "error"@.len());
        }
        let count = rows[k].1;
        let action = chars_of(rows[k].0.as_str());
        total = total + count;
        if crate::text::is_literal(action.as_slice(), "blocked") {
            blocked = blocked + count;
        } else if crate::text::is_literal(action.as_slice(), "allowed") {
            allowed = allowed + count;
        } else if crate::text::is_literal(action.as_slice(), "cached") {
            cached = cached + count;
        } else if crate::text::is_literal(action.as_slice(), "error") {
            errors = errors + count;
        }
        k = k + 1;
    }
    assert(rv.subrange(0, rv.len() as int) =~= rv);
    StatsSummary { total, blocked, allowed, cached, errors }
}

/// The time before which entries are pruned: `older_than` seconds before
/// `now`, or the epoch when that would be earlier.
pub fn prune_cutoff(now: u64, older_than: u64) -> (cutoff: u64)
    ensures
        cutoff == if now >= older_than {
            (now - older_than) as u64
        } else {
            0
        },
{
    now.saturating_sub(older_than)
}

} // verus!
