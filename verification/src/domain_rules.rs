//! A set of blocked domains that also blocks their subdomains: a rule
//! `ads.example.com` blocks `ads.example.com` and `foo.ads.example.com`, in
//! any case.

use vstd::prelude::*;

use dashmap::DashSet;

use crate::collections::{
    set_contents, string_set_contains, string_set_insert, string_set_items, string_set_len,
    string_set_new,
};
use crate::text::{chars_of, ends_with_chars, string_of, to_lowercase, unicode_lowercase};

verus! {

/// Whether the rules `rules` block `domain`: its lowercase form is a rule,
/// or ends with a dot followed by a rule.
pub open spec fn rules_block(rules: Set<Seq<char>>, domain: Seq<char>) -> bool {
    let lower = unicode_lowercase(domain);
    rules.contains(lower) || exists|r: Seq<char>|
        #[trigger] rules.contains(r) && (seq!['.'] + r).is_suffix_of(lower)
}

/// The blocked domains.
pub struct RuleEngine {
    blocked_domains: DashSet<String>,
}

impl View for RuleEngine {
    type V = Set<Seq<char>>;

    closed spec fn view(&self) -> Set<Seq<char>> {
        set_contents(self.blocked_domains)
    }
}

impl RuleEngine {
    /// An engine blocking the given domains, each as given.
    pub fn new(domains: Vec<String>) -> (e: RuleEngine)
        ensures
            e@ == domains@.map_values(|d: String| d@).to_set(),
    {
        let mut blocked_domains = string_set_new();
        let mut k: usize = 0;
        while k < domains.len()
            invariant
                k <= domains@.len(),
                set_contents(blocked_domains) == domains@.subrange(0, k as int).map_values(
                    |d: String| d@,
                ).to_set(),
            decreases domains@.len() - k,
        {
            proof {
                let a = domains@.subrange(0, k as int);
                let b = domains@.subrange(0, k + 1);
                assert(b =~= a.push(domains@[k as int]));
                assert(b.map_values(|d: String| d@) =~= a.map_values(|d: String| d@).push(
                    domains@[k as int]@,
                ));
                a.map_values(|d: String| d@).lemma_push_to_set_commute(domains@[k as int]@);
            }
            string_set_insert(&mut blocked_domains, domains[k].clone());
            k = k + 1;
            assert(set_contents(blocked_domains) =~= domains@.subrange(0, k as int).map_values(
                |d: String| d@,
            ).to_set());
        }
        assert(domains@.subrange(0, domains@.len() as int) =~= domains@);
        RuleEngine { blocked_domains }
    }

    /// Whether `domain` is blocked: its lowercase form is a rule, or a
    /// subdomain of one.
    pub fn is_blocked(&self, domain: &str) -> (b: bool)
        ensures
            b == rules_block(self@, domain@),
    {
        let cs = chars_of(domain);
        let lower = to_lowercase(cs.as_slice());
        let lower_str = string_of(lower.as_slice());
        if string_set_contains(&self.blocked_domains, lower_str.as_str()) {
            return true;
        }
        let items = string_set_items(&self.blocked_domains);
        let mut k: usize = 0;
        while k < items.len()
            invariant
                k <= items@.len(),
                lower@ == unicode_lowercase(domain@),
                forall|i: int| 0 <= i < items@.len() ==> self@.contains(#[trigger] items@[i]@),
                forall|r: Seq<char>|
                    self@.contains(r) ==> exists|i: int| 0 <= i < items@.len() && #[trigger] items@[i]@ == r,
                forall|i: int|
                    0 <= i < k ==> !(seq!['.'] + #[trigger] items@[i]@).is_suffix_of(lower@),
            decreases items@.len() - k,
        {
            let mut dotted: Vec<char> = Vec::new();
            dotted.push('.');
            let entry = chars_of(items[k].as_str());
            crate::text::append_chars(&mut dotted, entry.as_slice());
            assert(dotted@ =~= seq!['.'] + items@[k as int]@);
            if ends_with_chars(lower.as_slice(), dotted.as_slice()) {
                assert(self@.contains(items@[k as int]@));
                return true;
            }
            k = k + 1;
        }
        proof {
            assert forall|r: Seq<char>| #[trigger] self@.contains(r) implies !(seq!['.']
                + r).is_suffix_of(lower@) by {
                let i = choose|i: int| 0 <= i < items@.len() && #[trigger] items@[i]@ == r;
                assert(!(seq!['.'] + items@[i]@).is_suffix_of(lower@));
            }
        }
        false
    }

    /// The number of rules.
    pub fn count(&self) -> (n: usize)
        ensures
            n == self@.len(),
    {
        string_set_len(&self.blocked_domains)
    }
}

/// A rule blocks the domain itself and every domain that ends with a dot and
/// the rule, whatever their case.
pub proof fn lemma_rule_blocks_subdomains(rules: Set<Seq<char>>, rule: Seq<char>, domain: Seq<char>)
    requires
        rules.contains(rule),
        unicode_lowercase(domain) == rule || (seq!['.'] + rule).is_suffix_of(
            unicode_lowercase(domain),
        ),
    ensures
        rules_block(rules, domain),
{
}

} // verus!
