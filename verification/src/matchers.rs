//! Rule matching strategies: exact domains, and domains with all their
//! subdomains. Domains are compared in lowercase.

use vstd::prelude::*;

use dashmap::DashSet;

use crate::collections::{
    set_contents, string_set_contains, string_set_insert, string_set_len, string_set_new,
};
use crate::text::{chars_of, slice_chars, string_of, to_lowercase, unicode_lowercase};

verus! {

/// A rule matching strategy.
pub trait Matcher: Send + Sync {
    /// Whether the strategy blocks a domain.
    spec fn blocks(&self, domain: Seq<char>) -> bool;

    /// Check if a domain should be blocked.
    fn is_blocked(&self, domain: &str) -> (b: bool)
        ensures
            b == self.blocks(domain@),
    ;

    /// Get the matcher name for logging/debugging.
    fn name(&self) -> &'static str;
}

/// The rules that a list of domains gives: each domain, lowercased.
pub open spec fn lowered_set(domains: Seq<String>) -> Set<Seq<char>> {
    domains.map_values(|d: String| unicode_lowercase(d@)).to_set()
}

/// Exact domain matcher.
pub struct ExactMatcher {
    blocked: DashSet<String>,
}

impl View for ExactMatcher {
    type V = Set<Seq<char>>;

    closed spec fn view(&self) -> Set<Seq<char>> {
        set_contents(self.blocked)
    }
}

/// Adds the lowercase form of each domain to a set.
fn add_all_lowered(set: &mut DashSet<String>, domains: Vec<String>)
    ensures
        set_contents(*final(set)) == set_contents(*old(set)).union(lowered_set(domains@)),
{
    let mut k: usize = 0;
    while k < domains.len()
        invariant
            k <= domains@.len(),
            set_contents(*set) == set_contents(*old(set)).union(
                lowered_set(domains@.subrange(0, k as int)),
            ),
        decreases domains@.len() - k,
    {
        let cs = chars_of(domains[k].as_str());
        let lower = string_of(to_lowercase(cs.as_slice()).as_slice());
        string_set_insert(set, lower);
        proof {
            let a = domains@.subrange(0, k as int);
            let b = domains@.subrange(0, k + 1);
            assert(b =~= a.push(domains@[k as int]));
            assert(b.map_values(|d: String| unicode_lowercase(d@)) =~= a.map_values(
                |d: String| unicode_lowercase(d@),
            ).push(unicode_lowercase(domains@[k as int]@)));
            a.map_values(|d: String| unicode_lowercase(d@)).lemma_push_to_set_commute(
                unicode_lowercase(domains@[k as int]@),
            );
        }
        k = k + 1;
        assert(set_contents(*set) =~= set_contents(*old(set)).union(
            lowered_set(domains@.subrange(0, k as int)),
        ));
    }
    assert(domains@.subrange(0, domains@.len() as int) =~= domains@);
}

impl ExactMatcher {
    /// Create a new exact matcher.
    pub fn new(domains: Vec<String>) -> (m: ExactMatcher)
        ensures
            m@ == lowered_set(domains@),
    {
        let mut blocked = string_set_new();
        add_all_lowered(&mut blocked, domains);
        assert(set_contents(blocked) =~= lowered_set(domains@));
        ExactMatcher { blocked }
    }

    /// Add a domain to block.
    pub fn add(&mut self, domain: String)
        ensures
            final(self)@ == old(self)@.insert(unicode_lowercase(domain@)),
    {
        let cs = chars_of(domain.as_str());
        let lower = string_of(to_lowercase(cs.as_slice()).as_slice());
        string_set_insert(&mut self.blocked, lower);
    }

    /// Get the number of blocked domains.
    pub fn count(&self) -> (n: usize)
        ensures
            n == self@.len(),
    {
        string_set_len(&self.blocked)
    }
}

impl Matcher for ExactMatcher {
    closed spec fn blocks(&self, domain: Seq<char>) -> bool {
        self@.contains(unicode_lowercase(domain))
    }

    fn is_blocked(&self, domain: &str) -> (b: bool) {
        let cs = chars_of(domain);
        let lower = string_of(to_lowercase(cs.as_slice()).as_slice());
        string_set_contains(&self.blocked, lower.as_str())
    }

    fn name(&self) -> (n: &'static str)
        ensures
            n@ == "ExactMatcher"@,
    {
        "ExactMatcher"
    }
}

/// Whether a label of `s` starts at position `p`: the first, or one right
/// after a dot.
pub open spec fn label_start(s: Seq<char>, p: int) -> bool {
    p == 0 || (0 < p <= s.len() && s[p - 1] == '.')
}

/// Whether some trailing run of whole labels of `s` is in `set`.
pub open spec fn suffix_in(set: Set<Seq<char>>, s: Seq<char>) -> bool {
    exists|p: int| label_start(s, p) && #[trigger] set.contains(s.subrange(p, s.len() as int))
}

/// Suffix domain matcher: matches domains and all their subdomains.
///
/// A rule `ads.example.com` matches `ads.example.com`, `foo.ads.example.com`
/// and `bar.foo.ads.example.com`. Each rule is kept as its lowercase labels,
/// joined by dots; a query matches when one of its trailing runs of labels
/// is a rule.
pub struct SuffixMatcher {
    suffixes: DashSet<String>,
}

impl View for SuffixMatcher {
    type V = Set<Seq<char>>;

    closed spec fn view(&self) -> Set<Seq<char>> {
        set_contents(self.suffixes)
    }
}

impl SuffixMatcher {
    /// Create a new suffix matcher from a list of domains.
    pub fn new(domains: Vec<String>) -> (m: SuffixMatcher)
        ensures
            m@ == lowered_set(domains@),
    {
        let mut suffixes = string_set_new();
        add_all_lowered(&mut suffixes, domains);
        assert(set_contents(suffixes) =~= lowered_set(domains@));
        SuffixMatcher { suffixes }
    }

    /// Add a domain to block.
    pub fn add(&mut self, domain: String)
        ensures
            final(self)@ == old(self)@.insert(unicode_lowercase(domain@)),
    {
        let cs = chars_of(domain.as_str());
        let lower = string_of(to_lowercase(cs.as_slice()).as_slice());
        string_set_insert(&mut self.suffixes, lower);
    }

    /// Get the number of suffix rules.
    pub fn count(&self) -> (n: usize)
        ensures
            n == self@.len(),
    {
        string_set_len(&self.suffixes)
    }
}

impl Matcher for SuffixMatcher {
    closed spec fn blocks(&self, domain: Seq<char>) -> bool {
        suffix_in(self@, unicode_lowercase(domain))
    }

    fn is_blocked(&self, domain: &str) -> (b: bool) {
        let cs = chars_of(domain);
        let lower = to_lowercase(cs.as_slice());
        let ghost s = lower@;
        let n = lower.len();
        let mut p: usize = 0;
        while p < n
            invariant
                n == s.len(),
                s == lower@,
                s == unicode_lowercase(domain@),
                self@ == set_contents(self.suffixes),
                forall|q: int|
                    0 <= q < p && label_start(s, q) ==> !#[trigger] self@.contains(
                        s.subrange(q, s.len() as int),
                    ),
            decreases n - p,
        {
            if p == 0 || lower[p - 1] == '.' {
                let suffix = string_of(slice_chars(lower.as_slice(), p, n).as_slice());
                if string_set_contains(&self.suffixes, suffix.as_str()) {
                    assert(label_start(s, p as int));
                    return true;
                }
            }
            p = p + 1;
        }
        if n == 0 || lower[n - 1] == '.' {
            let suffix = string_of(slice_chars(lower.as_slice(), n, n).as_slice());
            if string_set_contains(&self.suffixes, suffix.as_str()) {
                assert(label_start(s, n as int));
                return true;
            }
        }
        proof {
            assert forall|q: int| label_start(s, q) implies !#[trigger] self@.contains(
                s.subrange(q, s.len() as int),
            ) by {
                assert(0 <= q <= n);
            }
        }
        false
    }

    fn name(&self) -> (n: &'static str)
        ensures
            n@ == "SuffixMatcher"@,
    {
        "SuffixMatcher"
    }
}

/// A domain added to an exact matcher is blocked by it.
pub proof fn lemma_exact_add_blocks(before: ExactMatcher, after: ExactMatcher, domain: Seq<char>)
    requires
        after@ == before@.insert(unicode_lowercase(domain)),
    ensures
        after.blocks(domain),
{
}

/// An exact matcher blocks a domain exactly when its lowercase form is a
/// rule.
pub proof fn lemma_exact_blocks(m: ExactMatcher, domain: Seq<char>)
    ensures
        m.blocks(domain) == m@.contains(unicode_lowercase(domain)),
{
}

/// A domain added to a suffix matcher is blocked by it.
pub proof fn lemma_suffix_add_blocks(before: SuffixMatcher, after: SuffixMatcher, domain: Seq<char>)
    requires
        after@ == before@.insert(unicode_lowercase(domain)),
    ensures
        after.blocks(domain),
{
    let s = unicode_lowercase(domain);
    assert(s.subrange(0, s.len() as int) =~= s);
    assert(label_start(s, 0));
    assert(after@.contains(s.subrange(0, s.len() as int)));
}

/// A suffix matcher blocks a domain exactly when some trailing run of whole
/// labels of its lowercase form is a rule.
pub proof fn lemma_suffix_blocks(m: SuffixMatcher, domain: Seq<char>)
    ensures
        m.blocks(domain) == suffix_in(m@, unicode_lowercase(domain)),
{
}

/// Subdomains of a blocked domain are blocked: if a domain is blocked by a
/// suffix matcher, so is every domain whose lowercase form is the blocked
/// one's behind some labels and a dot.
pub proof fn lemma_suffix_blocks_subdomains(
    m: SuffixMatcher,
    domain: Seq<char>,
    sub: Seq<char>,
    prefix: Seq<char>,
)
    requires
        m.blocks(domain),
        prefix.len() > 0,
        prefix.last() == '.',
        unicode_lowercase(sub) == prefix + unicode_lowercase(domain),
    ensures
        m.blocks(sub),
{
    let s = unicode_lowercase(domain);
    let t = unicode_lowercase(sub);
    let p = choose|p: int| label_start(s, p) && #[trigger] m@.contains(s.subrange(p, s.len() as int));
    let q = prefix.len() + p;
    assert(t.subrange(q, t.len() as int) =~= s.subrange(p, s.len() as int));
    if p == 0 {
        assert(t[q - 1] == prefix.last());
    } else {
        assert(t[q - 1] == s[p - 1]);
    }
    assert(label_start(t, q));
    assert(m@.contains(t.subrange(q, t.len() as int)));
}


/// One more domain, lowercased, joins the rules.
proof fn lemma_lowered_push(ds: Seq<String>, x: String)
    ensures
        lowered_set(ds.push(x)) == lowered_set(ds).insert(unicode_lowercase(x@)),
{
    assert(ds.push(x).map_values(|d: String| unicode_lowercase(d@)) =~= ds.map_values(
        |d: String| unicode_lowercase(d@),
    ).push(unicode_lowercase(x@)));
    ds.map_values(|d: String| unicode_lowercase(d@)).lemma_push_to_set_commute(
        unicode_lowercase(x@),
    );
}

/// Rules made from `domains` and then given `added`, one at a time, are the
/// lowercase forms of all of them.
proof fn lemma_sets_after_adds(sets: Seq<Set<Seq<char>>>, domains: Seq<String>, added: Seq<String>)
    requires
        sets.len() == added.len() + 1,
        sets[0] == lowered_set(domains),
        forall|i: int|
            0 <= i < added.len() ==> #[trigger] sets[i + 1] == sets[i].insert(
                unicode_lowercase(added[i]@),
            ),
    ensures
        sets.last() == lowered_set(domains + added),
    decreases added.len(),
{
    if added.len() == 0 {
        assert(domains + added =~= domains);
    } else {
        let front = sets.drop_last();
        let fewer = added.drop_last();
        assert forall|i: int| 0 <= i < fewer.len() implies #[trigger] front[i + 1] == front[i].insert(
            unicode_lowercase(fewer[i]@),
        ) by {
            assert(sets[i + 1] == sets[i].insert(unicode_lowercase(added[i]@)));
        }
        lemma_sets_after_adds(front, domains, fewer);
        assert(domains + added =~= (domains + fewer).push(added.last()));
        lemma_lowered_push(domains + fewer, added.last());
        assert(sets[added.len() as int] == sets[added.len() - 1].insert(
            unicode_lowercase(added[added.len() - 1]@),
        ));
    }
}

/// Whether the lowercase form of `v` is among those of `ds`.
proof fn lemma_lowered_contains(ds: Seq<String>, v: Seq<char>)
    ensures
        lowered_set(ds).contains(v) <==> exists|i: int|
            0 <= i < ds.len() && #[trigger] unicode_lowercase(ds[i]@) == v,
{
    let m = ds.map_values(|d: String| unicode_lowercase(d@));
    if lowered_set(ds).contains(v) {
        assert(m.contains(v));
        let i = choose|i: int| 0 <= i < m.len() && m[i] == v;
        assert(unicode_lowercase(ds[i]@) == v);
    }
    if exists|i: int| 0 <= i < ds.len() && #[trigger] unicode_lowercase(ds[i]@) == v {
        let i = choose|i: int| 0 <= i < ds.len() && #[trigger] unicode_lowercase(ds[i]@) == v;
        assert(m[i] == v);
        assert(m.contains(v));
    }
}

/// An exact matcher made from `domains` and then given each of `added`
/// (`matchers` being its successive states) blocks a domain exactly when the
/// domain's lowercase form is that of one of the domains given.
pub proof fn lemma_exact_after_adds(
    matchers: Seq<ExactMatcher>,
    domains: Seq<String>,
    added: Seq<String>,
    d: Seq<char>,
)
    requires
        matchers.len() == added.len() + 1,
        matchers[0]@ == lowered_set(domains),
        forall|i: int|
            0 <= i < added.len() ==> #[trigger] matchers[i + 1]@ == matchers[i]@.insert(
                unicode_lowercase(added[i]@),
            ),
    ensures
        matchers.last().blocks(d) <==> exists|i: int|
            0 <= i < (domains + added).len() && #[trigger] unicode_lowercase((domains + added)[i]@)
                == unicode_lowercase(d),
{
    let sets = matchers.map_values(|m: ExactMatcher| m@);
    assert forall|i: int| 0 <= i < added.len() implies #[trigger] sets[i + 1] == sets[i].insert(
        unicode_lowercase(added[i]@),
    ) by {
        assert(matchers[i + 1]@ == matchers[i]@.insert(unicode_lowercase(added[i]@)));
    }
    lemma_sets_after_adds(sets, domains, added);
    lemma_lowered_contains(domains + added, unicode_lowercase(d));
}

/// A suffix matcher made from `domains` and then given each of `added`
/// (`matchers` being its successive states) blocks a domain exactly when its
/// lowercase form is the lowercase form of one of the domains given, or ends
/// with a dot followed by one.
pub proof fn lemma_suffix_after_adds(
    matchers: Seq<SuffixMatcher>,
    domains: Seq<String>,
    added: Seq<String>,
    d: Seq<char>,
)
    requires
        matchers.len() == added.len() + 1,
        matchers[0]@ == lowered_set(domains),
        forall|i: int|
            0 <= i < added.len() ==> #[trigger] matchers[i + 1]@ == matchers[i]@.insert(
                unicode_lowercase(added[i]@),
            ),
    ensures
        matchers.last().blocks(d) <==> exists|i: int|
            0 <= i < (domains + added).len() && {
                let r = #[trigger] unicode_lowercase((domains + added)[i]@);
                let s = unicode_lowercase(d);
                r == s || (seq!['.'] + r).is_suffix_of(s)
            },
{
    let all = domains + added;
    let sets = matchers.map_values(|m: SuffixMatcher| m@);
    assert forall|i: int| 0 <= i < added.len() implies #[trigger] sets[i + 1] == sets[i].insert(
        unicode_lowercase(added[i]@),
    ) by {
        assert(matchers[i + 1]@ == matchers[i]@.insert(unicode_lowercase(added[i]@)));
    }
    lemma_sets_after_adds(sets, domains, added);
    let set = lowered_set(all);
    assert(matchers.last()@ == set);
    let s = unicode_lowercase(d);
    if matchers.last().blocks(d) {
        let p = choose|p: int| label_start(s, p) && #[trigger] set.contains(s.subrange(p, s.len() as int));
        let r = s.subrange(p, s.len() as int);
        lemma_lowered_contains(all, r);
        let i = choose|i: int| 0 <= i < all.len() && #[trigger] unicode_lowercase(all[i]@) == r;
        if p == 0 {
            assert(r =~= s);
        } else {
            assert(s.subrange(s.len() - (r.len() + 1), s.len() as int) =~= seq!['.'] + r);
        }
        assert(unicode_lowercase(all[i]@) == r);
    }
    if exists|i: int|
        0 <= i < all.len() && {
            let r = #[trigger] unicode_lowercase(all[i]@);
            r == s || (seq!['.'] + r).is_suffix_of(s)
        } {
        let i = choose|i: int|
            0 <= i < all.len() && {
                let r = #[trigger] unicode_lowercase(all[i]@);
                r == s || (seq!['.'] + r).is_suffix_of(s)
            };
        let r = unicode_lowercase(all[i]@);
        lemma_lowered_contains(all, r);
        assert(set.contains(r));
        if r == s {
            assert(s.subrange(0, s.len() as int) =~= s);
            assert(label_start(s, 0));
            assert(set.contains(s.subrange(0, s.len() as int)));
        } else {
            let p = s.len() - r.len();
            let t = seq!['.'] + r;
            assert(s.subrange(s.len() - t.len(), s.len() as int) =~= t);
            assert(s[p - 1] == t[0]);
            assert forall|k: int| 0 <= k < r.len() implies #[trigger] s.subrange(p, s.len() as int)[k]
                == r[k] by {
                assert(s.subrange(s.len() - t.len(), s.len() as int)[k + 1] == t[k + 1]);
            }
            assert(s.subrange(p, s.len() as int) =~= r);
            assert(label_start(s, p));
            assert(set.contains(s.subrange(p, s.len() as int)));
        }
    }
}

} // verus!
