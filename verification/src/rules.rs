//! The rule engine: named matchers, any of which may block a domain, and
//! the building of an engine from the text of rule lists.

use vstd::prelude::*;

use std::sync::Arc;

use crate::filter::{parse_exception, parse_line, parsed_exception, parsed_rule};
use crate::matchers::{lemma_suffix_blocks, suffix_in, Matcher, SuffixMatcher};
use crate::text::{
    unicode_lowercase, chars_of, is_literal, last_index_of, rfind_char, slice_chars, split_lines, text_lines,
};

verus! {

/// Domains that exception rules allow: each allowed domain, lowercased,
/// allows itself and its subdomains.
pub struct ExceptionMatcher {
    allowed: SuffixMatcher,
}

impl View for ExceptionMatcher {
    type V = Set<Seq<char>>;

    closed spec fn view(&self) -> Set<Seq<char>> {
        self.allowed@
    }
}

impl ExceptionMatcher {
    /// Whether an allowed domain, or a parent domain of it, is allowed: some
    /// trailing run of whole labels of the lowercase form of `domain` is
    /// among the allowed ones.
    pub open spec fn allows(&self, domain: Seq<char>) -> bool {
        suffix_in(self@, unicode_lowercase(domain))
    }

    /// An exception matcher that allows nothing.
    pub fn new() -> (m: ExceptionMatcher)
        ensures
            m@ == Set::<Seq<char>>::empty(),
    {
        let allowed = SuffixMatcher::new(Vec::new());
        assert(allowed@ =~= Set::<Seq<char>>::empty());
        ExceptionMatcher { allowed }
    }

    /// Allow a domain and its subdomains.
    pub fn add(&mut self, domain: String)
        ensures
            final(self)@ == old(self)@.insert(unicode_lowercase(domain@)),
    {
        self.allowed.add(domain);
    }

    /// Whether a domain is allowed.
    pub fn is_allowed(&self, domain: &str) -> (b: bool)
        ensures
            b == self.allows(domain@),
    {
        proof {
            lemma_suffix_blocks(self.allowed, domain@);
        }
        self.allowed.is_blocked(domain)
    }
}

/// Rule engine combining multiple matchers, with exceptions that override
/// them.
pub struct RuleEngine {
    exceptions: Arc<ExceptionMatcher>,
    matchers: Vec<(String, Arc<dyn Matcher>)>,
}

impl RuleEngine {
    /// Whether the engine blocks the domain: no exception allows it, and one
    /// of the matchers blocks it.
    pub closed spec fn blocks(&self, domain: Seq<char>) -> bool {
        &&& !self.exceptions.allows(domain)
        &&& exists|i: int| 0 <= i < self.matchers@.len() && #[trigger] self.matchers@[i].1.blocks(domain)
    }

    /// Whether an exception of the engine allows the domain.
    pub closed spec fn allows(&self, domain: Seq<char>) -> bool {
        self.exceptions.allows(domain)
    }

    /// The number of matchers.
    pub closed spec fn spec_matcher_count(&self) -> nat {
        self.matchers@.len()
    }

    /// Create a new rule engine with the given matchers and no exceptions.
    pub fn new(matchers: Vec<(String, Arc<dyn Matcher>)>) -> (e: RuleEngine)
        ensures
            forall|d: Seq<char>|
                #[trigger] e.blocks(d) == exists|i: int|
                    0 <= i < matchers@.len() && #[trigger] matchers@[i].1.blocks(d),
            forall|d: Seq<char>| !#[trigger] e.allows(d),
            e.spec_matcher_count() == matchers@.len(),
    {
        let exceptions = Arc::new(ExceptionMatcher::new());
        let e = RuleEngine { exceptions, matchers };
        assert forall|d: Seq<char>| #[trigger] e.blocks(d) == exists|i: int|
            0 <= i < matchers@.len() && #[trigger] matchers@[i].1.blocks(d) by {
            assert(!e.exceptions.allows(d));
            lemma_matchers_block(e, matchers@, d);
        }
        e
    }

    /// Create a new rule engine with the given exceptions and matchers.
    pub fn with_exceptions(exceptions: Arc<ExceptionMatcher>, matchers: Vec<(String, Arc<dyn Matcher>)>) -> (e: RuleEngine)
        ensures
            forall|d: Seq<char>|
                #[trigger] e.blocks(d) == (!exceptions.allows(d) && exists|i: int|
                    0 <= i < matchers@.len() && #[trigger] matchers@[i].1.blocks(d)),
            forall|d: Seq<char>| #[trigger] e.allows(d) == exceptions.allows(d),
            e.spec_matcher_count() == matchers@.len(),
    {
        let e = RuleEngine { exceptions, matchers };
        assert forall|d: Seq<char>| #[trigger] e.blocks(d) == (!exceptions.allows(d) && exists|i: int|
            0 <= i < matchers@.len() && #[trigger] matchers@[i].1.blocks(d)) by {
            assert(e.exceptions.allows(d) == exceptions.allows(d));
            lemma_matchers_block(e, matchers@, d);
        }
        e
    }

    /// Check if a domain should be blocked.
    pub fn is_blocked(&self, domain: &str) -> (b: bool)
        ensures
            b == self.blocks(domain@),
    {
        if self.exceptions.is_allowed(domain) {
            return false;
        }
        let mut k: usize = 0;
        while k < self.matchers.len()
            invariant
                k <= self.matchers@.len(),
                !self.exceptions.allows(domain@),
                forall|i: int| 0 <= i < k ==> !#[trigger] self.matchers@[i].1.blocks(domain@),
            decreases self.matchers@.len() - k,
        {
            if self.matchers[k].1.is_blocked(domain) {
                return true;
            }
            k = k + 1;
        }
        false
    }

    /// Get matcher count.
    pub fn matcher_count(&self) -> (n: usize)
        ensures
            n == self.spec_matcher_count(),
    {
        self.matchers.len()
    }
}

proof fn lemma_matchers_block(e: RuleEngine, ms: Seq<(String, Arc<dyn Matcher>)>, d: Seq<char>)
    requires
        e.matchers@ == ms,
    ensures
        e.blocks(d) == (!e.exceptions.allows(d) && exists|i: int|
            0 <= i < ms.len() && #[trigger] ms[i].1.blocks(d)),
{
    if exists|i: int| 0 <= i < ms.len() && #[trigger] ms[i].1.blocks(d) {
        let i = choose|i: int| 0 <= i < ms.len() && #[trigger] ms[i].1.blocks(d);
        assert(e.matchers@[i].1.blocks(d));
    }
    if exists|i: int| 0 <= i < e.matchers@.len() && #[trigger] e.matchers@[i].1.blocks(d) {
        let i = choose|i: int| 0 <= i < e.matchers@.len() && #[trigger] e.matchers@[i].1.blocks(d);
        assert(ms[i].1.blocks(d));
    }
}

/// A domain that an exception allows is never blocked, whatever the
/// matchers say.
pub proof fn lemma_allowed_never_blocked(e: RuleEngine, domain: Seq<char>)
    requires
        e.allows(domain),
    ensures
        !e.blocks(domain),
{
}

/// The rules that some lines give, in order.
pub open spec fn line_rules(lines: Seq<Seq<char>>) -> Seq<Seq<char>>
    decreases lines.len(),
{
    if lines.len() == 0 {
        Seq::empty()
    } else {
        line_rules(lines.drop_last()) + match parsed_rule(lines.last()) {
            Some(r) => seq![r],
            None => Seq::empty(),
        }
    }
}

/// The rules that some rule lists give, in order.
pub open spec fn list_rules(lists: Seq<Seq<char>>) -> Seq<Seq<char>>
    decreases lists.len(),
{
    if lists.len() == 0 {
        Seq::empty()
    } else {
        list_rules(lists.drop_last()) + line_rules(text_lines(lists.last()))
    }
}

/// Appends the rules of a list's text to `out`.
#[verifier::spinoff_prover]
fn push_list_rules(out: &mut Vec<String>, text: &str)
    ensures
        final(out)@.map_values(|s: String| s@) == old(out)@.map_values(|s: String| s@) + line_rules(
            text_lines(text@),
        ),
{
    let cs = chars_of(text);
    let lines = split_lines(cs.as_slice());
    let ghost lv = lines@.map_values(|l: Vec<char>| l@);
    let ghost o = old(out)@.map_values(|s: String| s@);
    let mut k: usize = 0;
    while k < lines.len()
        invariant
            k <= lines@.len(),
            lv == lines@.map_values(|l: Vec<char>| l@),
            lv == text_lines(text@),
            out@.map_values(|s: String| s@) == o + line_rules(lv.subrange(0, k as int)),
        decreases lines@.len() - k,
    {
        let line = crate::text::string_of(lines[k].as_slice());
        let ghost before = out@.map_values(|s: String| s@);
        assert(lv.subrange(0, k + 1).drop_last() =~= lv.subrange(0, k as int));
        assert(lv.subrange(0, k + 1).last() == line@);
        match parse_line(line.as_str()) {
            Some(rule) => {
                out.push(rule);
                assert(out@.map_values(|s: String| s@) =~= before.push(
                    parsed_rule(line@).unwrap(),
                ));
            },
            None => {},
        }
        k = k + 1;
        assert(out@.map_values(|s: String| s@) =~= o + line_rules(lv.subrange(0, k as int)));
    }
    assert(lv.subrange(0, lv.len() as int) =~= lv);
}

/// The rules that the texts of some rule lists give, in order.
pub fn rules_of_lists(lists: &Vec<String>) -> (rules: Vec<String>)
    ensures
        rules@.map_values(|s: String| s@) == list_rules(lists@.map_values(|s: String| s@)),
{
    let ghost lv = lists@.map_values(|s: String| s@);
    let mut out: Vec<String> = Vec::new();
    let mut k: usize = 0;
    assert(out@.map_values(|s: String| s@) =~= list_rules(lv.subrange(0, 0)));
    while k < lists.len()
        invariant
            k <= lists@.len(),
            lv == lists@.map_values(|s: String| s@),
            out@.map_values(|s: String| s@) == list_rules(lv.subrange(0, k as int)),
        decreases lists@.len() - k,
    {
        push_list_rules(&mut out, lists[k].as_str());
        assert(lv.subrange(0, k + 1).drop_last() =~= lv.subrange(0, k as int));
        k = k + 1;
    }
    assert(lv.subrange(0, lv.len() as int) =~= lv);
    out
}


/// The exceptions that some lines give, in order.
pub open spec fn line_exceptions(lines: Seq<Seq<char>>) -> Seq<Seq<char>>
    decreases lines.len(),
{
    if lines.len() == 0 {
        Seq::empty()
    } else {
        line_exceptions(lines.drop_last()) + match parsed_exception(lines.last()) {
            Some(r) => seq![r],
            None => Seq::empty(),
        }
    }
}

/// The exceptions that some rule lists give, in order.
pub open spec fn list_exceptions(lists: Seq<Seq<char>>) -> Seq<Seq<char>>
    decreases lists.len(),
{
    if lists.len() == 0 {
        Seq::empty()
    } else {
        list_exceptions(lists.drop_last()) + line_exceptions(text_lines(lists.last()))
    }
}

/// Appends the exceptions of a list's text to `out`.
#[verifier::spinoff_prover]
fn push_list_exceptions(out: &mut Vec<String>, text: &str)
    ensures
        final(out)@.map_values(|s: String| s@) == old(out)@.map_values(|s: String| s@) + line_exceptions(
            text_lines(text@),
        ),
{
    let cs = chars_of(text);
    let lines = split_lines(cs.as_slice());
    let ghost lv = lines@.map_values(|l: Vec<char>| l@);
    let ghost o = old(out)@.map_values(|s: String| s@);
    let mut k: usize = 0;
    while k < lines.len()
        invariant
            k <= lines@.len(),
            lv == lines@.map_values(|l: Vec<char>| l@),
            lv == text_lines(text@),
            out@.map_values(|s: String| s@) == o + line_exceptions(lv.subrange(0, k as int)),
        decreases lines@.len() - k,
    {
        let line = crate::text::string_of(lines[k].as_slice());
        let ghost before = out@.map_values(|s: String| s@);
        assert(lv.subrange(0, k + 1).drop_last() =~= lv.subrange(0, k as int));
        assert(lv.subrange(0, k + 1).last() == line@);
        match parse_exception(line.as_str()) {
            Some(rule) => {
                out.push(rule);
                assert(out@.map_values(|s: String| s@) =~= before.push(
                    parsed_exception(line@).unwrap(),
                ));
            },
            None => {},
        }
        k = k + 1;
        assert(out@.map_values(|s: String| s@) =~= o + line_exceptions(lv.subrange(0, k as int)));
    }
    assert(lv.subrange(0, lv.len() as int) =~= lv);
}

/// The exceptions that the texts of some rule lists give, in order.
pub fn exceptions_of_lists(lists: &Vec<String>) -> (exceptions: Vec<String>)
    ensures
        exceptions@.map_values(|s: String| s@) == list_exceptions(lists@.map_values(|s: String| s@)),
{
    let ghost lv = lists@.map_values(|s: String| s@);
    let mut out: Vec<String> = Vec::new();
    let mut k: usize = 0;
    assert(out@.map_values(|s: String| s@) =~= list_exceptions(lv.subrange(0, 0)));
    while k < lists.len()
        invariant
            k <= lists@.len(),
            lv == lists@.map_values(|s: String| s@),
            out@.map_values(|s: String| s@) == list_exceptions(lv.subrange(0, k as int)),
        decreases lists@.len() - k,
    {
        push_list_exceptions(&mut out, lists[k].as_str());
        assert(lv.subrange(0, k + 1).drop_last() =~= lv.subrange(0, k as int));
        k = k + 1;
    }
    assert(lv.subrange(0, lv.len() as int) =~= lv);
    out
}


/// The extension of a file name, as `Path::extension` gives it: the text
/// after the last dot, unless that dot opens the name or the name is `..`.
pub open spec fn extension(name: Seq<char>) -> Option<Seq<char>> {
    if name == ".."@ {
        None
    } else {
        match last_index_of(name, '.') {
            Some(i) => if i == 0 {
                None
            } else {
                Some(name.subrange(i + 1, name.len() as int))
            },
            None => None,
        }
    }
}

/// Whether a file of a rules directory holds a rule list: its extension is
/// `txt`.
pub fn is_rule_list_file(file_name: &str) -> (b: bool)
    ensures
        b == (extension(file_name@) == Some("txt"@)),
{
    let cs = chars_of(file_name);
    if is_literal(cs.as_slice(), "..") {
        return false;
    }
    let n = cs.len();
    match rfind_char(cs.as_slice(), '.') {
        None => false,
        Some(i) => if i == 0 {
            false
        } else {
            assert(i < n) by {
                assert(last_index_of(cs@, '.') is Some);
            }
            let ext = slice_chars(cs.as_slice(), i + 1, n);
            is_literal(ext.as_slice(), "txt")
        },
    }
}

} // verus!
