//! Rule list parsing, one rule per line in plain-domain or uBlock form, and
//! a matcher that blocks the domains ending with one of its entries.

use vstd::prelude::*;

use dashmap::DashSet;

use crate::collections::{
    set_contents, string_set_contains, string_set_insert, string_set_items, string_set_new,
};
use crate::net::{ip_address, is_ip_address};
use crate::text::ends_with_chars;

use crate::text::{
    chars_of, first_word, skip_white_space, slice_chars, string_of, to_lowercase, trim, trim_start,
    trimmed, unicode_lowercase, word_end,
};

verus! {

/// The host a hosts-file line `address host` names: its second word, when
/// its first word is an IP address. `None` for a line of one word or one
/// whose first word is no address.
pub open spec fn hosts_host(t: Seq<char>) -> Option<Seq<char>> {
    let w = first_word(t).len();
    if w < t.len() && ip_address(first_word(t)) {
        Some(first_word(trim_start(t.subrange(w as int, t.len() as int))))
    } else {
        None
    }
}

/// Whether a trimmed line starts with `||`, as a uBlock-style rule does.
pub open spec fn ublock_rule(t: Seq<char>) -> bool {
    t.len() >= 2 && t[0] == '|' && t[1] == '|'
}

/// The domain of a uBlock-style rule `||domain^` (or `||domain`).
pub open spec fn ublock_domain(t: Seq<char>) -> Seq<char> {
    let rest = t.subrange(2, t.len() as int);
    if rest.len() > 0 && rest.last() == '^' {
        rest.drop_last()
    } else {
        rest
    }
}

/// Whether a trimmed line is an exception (allow) rule: it starts with `@@`.
pub open spec fn exception_line(t: Seq<char>) -> bool {
    t.len() >= 2 && t[0] == '@' && t[1] == '@'
}

/// The domain that a rules-file line names, before lowercasing.
///
/// The line is trimmed; an empty line, one that starts with `!` (a comment)
/// and one that starts with `@@` (an exception) name none; `||domain^` (and
/// `||domain`) names `domain`; a hosts-file line `0.0.0.0 domain`, whose
/// first word is an IP address, names `domain`; any other line names
/// itself, whole. An empty domain is no rule.
pub open spec fn rule_domain(line: Seq<char>) -> Option<Seq<char>> {
    let t = trim(line);
    if t.len() == 0 || t[0] == '!' || exception_line(t) {
        None
    } else {
        let d = if ublock_rule(t) {
            ublock_domain(t)
        } else {
            match hosts_host(t) {
                Some(h) => h,
                None => t,
            }
        };
        if d.len() > 0 {
            Some(d)
        } else {
            None
        }
    }
}

/// The rule a line yields: its domain, lowercased.
pub open spec fn parsed_rule(line: Seq<char>) -> Option<Seq<char>> {
    match rule_domain(line) {
        Some(d) => Some(unicode_lowercase(d)),
        None => None,
    }
}

/// The domain that an exception line `@@||domain^` (or `@@||domain`, or
/// `@@domain`) allows, before lowercasing; none for other lines and for an
/// empty domain.
pub open spec fn exception_domain(line: Seq<char>) -> Option<Seq<char>> {
    let t = trim(line);
    if exception_line(t) {
        let r = t.subrange(2, t.len() as int);
        let d = if ublock_rule(r) {
            ublock_domain(r)
        } else {
            r
        };
        if d.len() > 0 {
            Some(d)
        } else {
            None
        }
    } else {
        None
    }
}

/// The exception a line yields: its allowed domain, lowercased.
pub open spec fn parsed_exception(line: Seq<char>) -> Option<Seq<char>> {
    match exception_domain(line) {
        Some(d) => Some(unicode_lowercase(d)),
        None => None,
    }
}

fn ublock_domain_of(t: &[char]) -> (d: Vec<char>)
    requires
        t@.len() >= 2,
    ensures
        d@ == ublock_domain(t@),
{
    let end = if t.len() > 2 && t[t.len() - 1] == '^' {
        t.len() - 1
    } else {
        t.len()
    };
    let d = slice_chars(t, 2, end);
    proof {
        let rest = t@.subrange(2, t@.len() as int);
        if rest.len() > 0 && rest.last() == '^' {
            assert(rest.drop_last() =~= t@.subrange(2, t@.len() - 1));
        }
    }
    d
}

/// Parse an exception line of a rules file: `@@||domain^` gives the
/// lowercase domain it allows.
pub fn parse_exception(line: &str) -> (res: Option<String>)
    ensures
        match res {
            Some(s) => parsed_exception(line@) == Some(s@),
            None => parsed_exception(line@) is None,
        },
{
    let cs = chars_of(line);
    let t = trimmed(cs.as_slice());
    if !(t.len() >= 2 && t[0] == '@' && t[1] == '@') {
        return None;
    }
    let r = slice_chars(t.as_slice(), 2, t.len());
    let d = if r.len() >= 2 && r[0] == '|' && r[1] == '|' {
        ublock_domain_of(r.as_slice())
    } else {
        r
    };
    if d.len() > 0 {
        let lower = to_lowercase(d.as_slice());
        Some(string_of(lower.as_slice()))
    } else {
        None
    }
}

/// Parse a single line from a rules file.
///
/// Supports plain domains (`ads.example.com`), hosts-file lines
/// (`0.0.0.0 ads.example.com`), uBlock-style rules (`||ads.example.com^`),
/// comments (`! comment`) and empty lines. Exception lines (`@@...`) are no
/// blocking rules; `parse_exception` reads them.
pub fn parse_line(line: &str) -> (res: Option<String>)
    ensures
        match res {
            Some(s) => parsed_rule(line@) == Some(s@),
            None => parsed_rule(line@) is None,
        },
{
    let cs = chars_of(line);
    let t = trimmed(cs.as_slice());
    if t.len() == 0 || t[0] == '!' || (t.len() >= 2 && t[0] == '@' && t[1] == '@') {
        return None;
    }
    let d = if t.len() >= 2 && t[0] == '|' && t[1] == '|' {
        ublock_domain_of(t.as_slice())
    } else {
        let w = word_end(t.as_slice(), 0);
        assert(t@.subrange(0, t@.len() as int) =~= t@);
        let first = slice_chars(t.as_slice(), 0, w);
        if w < t.len() && is_ip_address(first.as_slice()) {
            let a = skip_white_space(t.as_slice(), w);
            let b = word_end(t.as_slice(), a);
            slice_chars(t.as_slice(), a, b)
        } else {
            t
        }
    };
    if d.len() > 0 {
        let lower = to_lowercase(d.as_slice());
        Some(string_of(lower.as_slice()))
    } else {
        None
    }
}


/// Whether `entries` block `domain`: it is an entry, or ends with one, as
/// text and in the case given.
pub open spec fn entries_block(entries: Set<Seq<char>>, domain: Seq<char>) -> bool {
    entries.contains(domain) || exists|e: Seq<char>| #[trigger] entries.contains(e) && e.is_suffix_of(domain)
}

/// Blocks the domains that end with one of its entries.
pub struct RuleMatcher {
    pub blocked: DashSet<String>,
}

impl View for RuleMatcher {
    type V = Set<Seq<char>>;

    open spec fn view(&self) -> Set<Seq<char>> {
        set_contents(self.blocked)
    }
}

impl RuleMatcher {
    /// A matcher with no entries.
    pub fn new() -> (m: RuleMatcher)
        ensures
            m@ == Set::<Seq<char>>::empty(),
    {
        RuleMatcher { blocked: string_set_new() }
    }

    /// Add an entry.
    pub fn add(&mut self, domain: String)
        ensures
            final(self)@ == old(self)@.insert(domain@),
    {
        string_set_insert(&mut self.blocked, domain);
    }

    /// Whether `domain` is an entry or ends with one.
    pub fn is_blocked(&self, domain: &str) -> (b: bool)
        ensures
            b == entries_block(self@, domain@),
    {
        if string_set_contains(&self.blocked, domain) {
            return true;
        }
        let d = chars_of(domain);
        let items = string_set_items(&self.blocked);
        let mut k: usize = 0;
        while k < items.len()
            invariant
                k <= items@.len(),
                d@ == domain@,
                forall|i: int| 0 <= i < items@.len() ==> self@.contains(#[trigger] items@[i]@),
                forall|r: Seq<char>|
                    self@.contains(r) ==> exists|i: int| 0 <= i < items@.len() && #[trigger] items@[i]@ == r,
                forall|i: int| 0 <= i < k ==> !(#[trigger] items@[i]@).is_suffix_of(d@),
            decreases items@.len() - k,
        {
            let entry = chars_of(items[k].as_str());
            if ends_with_chars(d.as_slice(), entry.as_slice()) {
                assert(self@.contains(items@[k as int]@));
                return true;
            }
            k = k + 1;
        }
        proof {
            assert forall|r: Seq<char>| #[trigger] self@.contains(r) implies !r.is_suffix_of(d@) by {
                let i = choose|i: int| 0 <= i < items@.len() && #[trigger] items@[i]@ == r;
                assert(!items@[i]@.is_suffix_of(d@));
            }
        }
        false
    }
}

} // verus!
