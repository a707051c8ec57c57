//! Character-level text helpers shared by the parsers and matchers.
//!
//! Text is processed as `Vec<char>`; `String` and `&str` values are turned
//! into character vectors and back at the edges.

use vstd::prelude::*;

verus! {

/// The characters of `s`, in order.
#[verifier::external_body]
pub(crate) fn chars_of(s: &str) -> (res: Vec<char>)
    ensures
        res@ == s@,
{
    s.chars().collect()
}

/// The string made of the characters of `cs`, in order.
#[verifier::external_body]
pub(crate) fn string_of(cs: &[char]) -> (res: String)
    ensures
        res@ == cs@,
{
    cs.iter().collect()
}

/// What `str::to_lowercase` returns for a string: the Unicode lowercase
/// mapping, which depends on context (the Greek final sigma) and on
/// Unicode tables.
pub uninterp spec fn unicode_lowercase(s: Seq<char>) -> Seq<char>;

/// `str::to_lowercase`: its result is named, as a function of the input
/// characters alone; nothing more is claimed of it.
#[verifier::external_body]
pub(crate) fn to_lowercase(s: &[char]) -> (res: Vec<char>)
    ensures
        res@ == unicode_lowercase(s@),
{
    let text: String = s.iter().collect();
    text.to_lowercase().chars().collect()
}

/// Unicode `White_Space`, the property behind `char::is_whitespace`.
pub open spec fn is_white_space(c: char) -> bool {
    ||| ('\u{9}' <= c && c <= '\u{d}')
    ||| c == ' '
    ||| c == '\u{85}'
    ||| c == '\u{a0}'
    ||| c == '\u{1680}'
    ||| ('\u{2000}' <= c && c <= '\u{200a}')
    ||| c == '\u{2028}'
    ||| c == '\u{2029}'
    ||| c == '\u{202f}'
    ||| c == '\u{205f}'
    ||| c == '\u{3000}'
}

pub fn white_space(c: char) -> (b: bool)
    ensures
        b == is_white_space(c),
{
    ('\u{9}' <= c && c <= '\u{d}') || c == ' ' || c == '\u{85}' || c == '\u{a0}' || c
        == '\u{1680}' || ('\u{2000}' <= c && c <= '\u{200a}') || c == '\u{2028}' || c
        == '\u{2029}' || c == '\u{202f}' || c == '\u{205f}' || c == '\u{3000}'
}

/// `s` without its leading white space.
pub open spec fn trim_start(s: Seq<char>) -> Seq<char>
    decreases s.len(),
{
    if s.len() > 0 && is_white_space(s[0]) {
        trim_start(s.drop_first())
    } else {
        s
    }
}

/// `s` without its trailing white space.
pub open spec fn trim_end(s: Seq<char>) -> Seq<char>
    decreases s.len(),
{
    if s.len() > 0 && is_white_space(s.last()) {
        trim_end(s.drop_last())
    } else {
        s
    }
}

/// `s` without leading and trailing white space, as `str::trim` gives it.
pub open spec fn trim(s: Seq<char>) -> Seq<char> {
    trim_end(trim_start(s))
}

/// Trimming `s` leaves the subrange `[start, end)` of it.
proof fn lemma_trim_start_subrange(s: Seq<char>, i: int)
    requires
        0 <= i <= s.len(),
        forall|k: int| 0 <= k < i ==> is_white_space(#[trigger] s[k]),
    ensures
        trim_start(s) == trim_start(s.subrange(i, s.len() as int)),
    decreases i,
{
    if i > 0 {
        assert(s.drop_first().subrange(i - 1, s.drop_first().len() as int) =~= s.subrange(
            i,
            s.len() as int,
        ));
        lemma_trim_start_subrange(s.drop_first(), i - 1);
    } else {
        assert(s.subrange(0, s.len() as int) =~= s);
    }
}

proof fn lemma_trim_end_subrange(s: Seq<char>, j: int)
    requires
        0 <= j <= s.len(),
        forall|k: int| j <= k < s.len() ==> is_white_space(#[trigger] s[k]),
    ensures
        trim_end(s) == trim_end(s.subrange(0, j)),
    decreases s.len() - j,
{
    if j < s.len() {
        assert(s.drop_last().subrange(0, j) =~= s.subrange(0, j));
        lemma_trim_end_subrange(s.drop_last(), j);
    } else {
        assert(s.subrange(0, j) =~= s);
    }
}

/// The bounds `(start, end)` of `trim(s)` within `s`.
pub fn trim_bounds(s: &[char]) -> (res: (usize, usize))
    ensures
        res.0 <= res.1 <= s@.len(),
        s@.subrange(res.0 as int, res.1 as int) == trim(s@),
{
    let n = s.len();
    let mut i: usize = 0;
    while i < n && white_space(s[i])
        invariant
            i <= n == s@.len(),
            forall|k: int| 0 <= k < i ==> is_white_space(#[trigger] s@[k]),
        decreases n - i,
    {
        i = i + 1;
    }
    proof {
        lemma_trim_start_subrange(s@, i as int);
    }
    let ghost rest = s@.subrange(i as int, n as int);
    assert(trim_start(rest) == rest);
    let mut j: usize = n;
    while j > i && white_space(s[j - 1])
        invariant
            i <= j <= n == s@.len(),
            forall|k: int| j <= k < n ==> is_white_space(#[trigger] s@[k]),
        decreases j,
    {
        j = j - 1;
    }
    proof {
        assert forall|k: int| j - i <= k < rest.len() implies is_white_space(#[trigger] rest[k]) by {
            assert(rest[k] == s@[k + i]);
        }
        lemma_trim_end_subrange(rest, j - i);
        assert(rest.subrange(0, j - i) =~= s@.subrange(i as int, j as int));
    }
    (i, j)
}

/// The characters of `trim(s)`.
pub fn trimmed(s: &[char]) -> (res: Vec<char>)
    ensures
        res@ == trim(s@),
{
    let (a, b) = trim_bounds(s);
    slice_chars(s, a, b)
}

/// The characters `s[start..end]`.
pub fn slice_chars(s: &[char], start: usize, end: usize) -> (res: Vec<char>)
    requires
        start <= end <= s@.len(),
    ensures
        res@ == s@.subrange(start as int, end as int),
{
    let mut out: Vec<char> = Vec::new();
    let mut k = start;
    while k < end
        invariant
            start <= k <= end <= s@.len(),
            out@ == s@.subrange(start as int, k as int),
        decreases end - k,
    {
        out.push(s[k]);
        k = k + 1;
        assert(out@ =~= s@.subrange(start as int, k as int));
    }
    out
}

/// ASCII lowercase of a single character, as `char::to_ascii_lowercase`.
pub open spec fn ascii_lower_char(c: char) -> char {
    if 'A' <= c && c <= 'Z' {
        ((c as u32) + 32) as char
    } else {
        c
    }
}

/// ASCII lowercase of a character sequence, as `str::to_ascii_lowercase`.
pub open spec fn ascii_lower(s: Seq<char>) -> Seq<char> {
    s.map_values(|c: char| ascii_lower_char(c))
}

pub fn lower_ascii_char(c: char) -> (r: char)
    ensures
        r == ascii_lower_char(c),
{
    if 'A' <= c && c <= 'Z' {
        let v: u32 = c as u32 + 32;
        assert(0x61 <= v <= 0x7a);
        char_from_ascii(v)
    } else {
        c
    }
}

/// The character with code `v`, for `v` in the ASCII lowercase range.
fn char_from_ascii(v: u32) -> (c: char)
    requires
        0x61 <= v <= 0x7a,
    ensures
        c == v as char,
{
    let b: u8 = v as u8;
    b as char
}

pub fn lower_ascii(s: &[char]) -> (res: Vec<char>)
    ensures
        res@ == ascii_lower(s@),
{
    let mut out: Vec<char> = Vec::new();
    let mut k: usize = 0;
    while k < s.len()
        invariant
            k <= s@.len(),
            out@ == ascii_lower(s@.subrange(0, k as int)),
        decreases s@.len() - k,
    {
        out.push(lower_ascii_char(s[k]));
        k = k + 1;
        assert(out@ =~= ascii_lower(s@.subrange(0, k as int)));
    }
    assert(s@.subrange(0, s@.len() as int) =~= s@);
    out
}

/// Whether `a` and `b` hold the same characters.
pub fn chars_eq(a: &[char], b: &[char]) -> (r: bool)
    ensures
        r == (a@ == b@),
{
    if a.len() != b.len() {
        return false;
    }
    let mut k: usize = 0;
    while k < a.len()
        invariant
            a@.len() == b@.len(),
            k <= a@.len(),
            forall|m: int| 0 <= m < k ==> a@[m] == b@[m],
        decreases a@.len() - k,
    {
        if a[k] != b[k] {
            return false;
        }
        k = k + 1;
    }
    assert(a@ =~= b@);
    true
}

/// Whether the characters of `s` are those of the literal `lit`.
pub fn is_literal(s: &[char], lit: &str) -> (r: bool)
    ensures
        r == (s@ == lit@),
{
    let l = chars_of(lit);
    chars_eq(s, l.as_slice())
}

/// The index of the first occurrence of `c` in `s`, if any.
pub open spec fn first_index_of(s: Seq<char>, c: char) -> Option<int> {
    if exists|i: int| 0 <= i < s.len() && s[i] == c {
        Some(choose|i: int| 0 <= i < s.len() && s[i] == c && forall|k: int| 0 <= k < i ==> s[k] != c)
    } else {
        None
    }
}

/// Where `c` first occurs in `s`, as `str::find` with a character.
pub fn find_char(s: &[char], c: char) -> (res: Option<usize>)
    ensures
        match res {
            Some(i) => i < s@.len() && s@[i as int] == c && forall|k: int| 0 <= k < i ==> s@[k] != c,
            None => forall|k: int| 0 <= k < s@.len() ==> s@[k] != c,
        },
        res matches Some(i) ==> first_index_of(s@, c) == Some(i as int),
        res is None ==> first_index_of(s@, c) is None,
{
    let mut k: usize = 0;
    while k < s.len()
        invariant
            k <= s@.len(),
            forall|m: int| 0 <= m < k ==> s@[m] != c,
        decreases s@.len() - k,
    {
        if s[k] == c {
            proof {
                let i = k as int;
                assert(0 <= i < s@.len() && s@[i] == c);
                let j = choose|j: int|
                    0 <= j < s@.len() && s@[j] == c && forall|m: int| 0 <= m < j ==> s@[m] != c;
                if j < i {
                } else if j > i {
                    assert(s@[i] != c);
                }
            }
            return Some(k);
        }
        k = k + 1;
    }
    None
}

/// The decimal digits of `n`, as `Display` of an unsigned integer writes them.
pub open spec fn decimal(n: nat) -> Seq<char>
    decreases n,
{
    if n < 10 {
        seq![digit_char(n)]
    } else {
        decimal(n / 10).push(digit_char(n % 10))
    }
}

pub open spec fn digit_char(d: nat) -> char {
    ((d + 48) as u32) as char
}

fn digit_of(d: u64) -> (c: char)
    requires
        d < 10,
    ensures
        c == digit_char(d as nat),
{
    let b: u8 = (d as u8) + 48;
    b as char
}

/// The decimal digits of `n`.
pub fn decimal_chars(n: u64) -> (res: Vec<char>)
    ensures
        res@ == decimal(n as nat),
    decreases n,
{
    if n < 10 {
        let mut v: Vec<char> = Vec::new();
        v.push(digit_of(n));
        assert(v@ =~= seq![digit_char(n as nat)]);
        v
    } else {
        let mut v = decimal_chars(n / 10);
        v.push(digit_of(n % 10));
        v
    }
}

/// Appends the characters of `b` to `a`.
pub fn append_chars(a: &mut Vec<char>, b: &[char])
    ensures
        final(a)@ == old(a)@ + b@,
{
    let ghost a0 = a@;
    let mut k: usize = 0;
    while k < b.len()
        invariant
            k <= b@.len(),
            a@ == a0 + b@.subrange(0, k as int),
        decreases b@.len() - k,
    {
        a.push(b[k]);
        k = k + 1;
        assert(a@ =~= a0 + b@.subrange(0, k as int));
    }
    assert(b@.subrange(0, b@.len() as int) =~= b@);
}

/// Appends the characters of the literal `lit` to `a`.
pub fn append_str(a: &mut Vec<char>, lit: &str)
    ensures
        final(a)@ == old(a)@ + lit@,
{
    let l = chars_of(lit);
    append_chars(a, l.as_slice());
}

/// The lines of a text, as `str::lines` gives them: split at `\n`, a `\r`
/// before the `\n` dropped, no final empty line.
#[verifier::opaque]
pub open spec fn text_lines(s: Seq<char>) -> Seq<Seq<char>>
    decreases s.len(),
{
    if s.len() == 0 {
        Seq::empty()
    } else {
        match first_index_of(s, '\n') {
            Some(i) if 0 <= i < s.len() => {
                let raw = s.subrange(0, i);
                let line = if raw.len() > 0 && raw.last() == '\r' {
                    raw.drop_last()
                } else {
                    raw
                };
                seq![line] + text_lines(s.subrange(i + 1, s.len() as int))
            },
            _ => seq![s],
        }
    }
}

/// The lines of a text.
pub fn split_lines(s: &[char]) -> (res: Vec<Vec<char>>)
    ensures
        res@.map_values(|l: Vec<char>| l@) == text_lines(s@),
{
    reveal(text_lines);
    let mut rest: Vec<char> = slice_chars(s, 0, s.len());
    assert(rest@ =~= s@);
    let mut out: Vec<Vec<char>> = Vec::new();
    while rest.len() > 0
        invariant
            out@.map_values(|l: Vec<char>| l@) + text_lines(rest@) == text_lines(s@),
        decreases rest@.len(),
    {
        proof {
            reveal(text_lines);
        }
        let ghost out0 = out@.map_values(|l: Vec<char>| l@);
        let ghost r0 = rest@;
        match find_char(rest.as_slice(), '\n') {
            None => {
                let line = slice_chars(rest.as_slice(), 0, rest.len());
                assert(line@ =~= r0);
                out.push(line);
                rest = Vec::new();
                assert(out@.map_values(|l: Vec<char>| l@) =~= out0.push(r0));
                assert(text_lines(r0) =~= seq![r0]);
                assert(text_lines(rest@) =~= Seq::<Seq<char>>::empty());
                assert(out@.map_values(|l: Vec<char>| l@) + text_lines(rest@) =~= out0 + text_lines(
                    r0,
                ));
            },
            Some(i) => {
                let raw = slice_chars(rest.as_slice(), 0, i);
                let line = if raw.len() > 0 && raw[raw.len() - 1] == '\r' {
                    slice_chars(raw.as_slice(), 0, raw.len() - 1)
                } else {
                    raw
                };
                let ghost lv = line@;
                proof {
                    let rr = r0.subrange(0, i as int);
                    if rr.len() > 0 && rr.last() == '\r' {
                        assert(rr.drop_last() =~= rr.subrange(0, rr.len() - 1));
                    }
                }
                out.push(line);
                rest = slice_chars(rest.as_slice(), i + 1, rest.len());
                assert(out@.map_values(|l: Vec<char>| l@) =~= out0.push(lv));
                assert(text_lines(r0) =~= seq![lv] + text_lines(rest@));
                assert(out@.map_values(|l: Vec<char>| l@) + text_lines(rest@) =~= out0 + text_lines(
                    r0,
                ));
            },
        }
    }
    assert(text_lines(rest@) =~= Seq::<Seq<char>>::empty());
    assert(out@.map_values(|l: Vec<char>| l@) + text_lines(rest@) =~= out@.map_values(
        |l: Vec<char>| l@,
    ));
    out
}


/// A line as `str::lines` gives it: without a `\r` that ends it.
pub open spec fn without_cr(l: Seq<char>) -> Seq<char> {
    if l.len() > 0 && l.last() == '\r' {
        l.drop_last()
    } else {
        l
    }
}

/// Whether `l` holds no newline.
pub open spec fn no_newline(l: Seq<char>) -> bool {
    forall|k: int| 0 <= k < l.len() ==> l[k] != '\n'
}

/// The lines `ls`, each followed by a newline.
pub open spec fn joined_lines(ls: Seq<Seq<char>>) -> Seq<char>
    decreases ls.len(),
{
    if ls.len() == 0 {
        Seq::empty()
    } else {
        joined_lines(ls.drop_last()) + ls.last() + seq!['\n']
    }
}

/// The first occurrence of `c` at or before an occurrence at `j`.
proof fn lemma_first_occurrence(s: Seq<char>, c: char, j: int) -> (i: int)
    requires
        0 <= j < s.len(),
        s[j] == c,
    ensures
        0 <= i <= j,
        s[i] == c,
        forall|k: int| 0 <= k < i ==> s[k] != c,
    decreases j,
{
    if exists|k: int| 0 <= k < j && s[k] == c {
        let k = choose|k: int| 0 <= k < j && s[k] == c;
        lemma_first_occurrence(s, c, k)
    } else {
        j
    }
}

/// An occurrence of `c` with none before it is the first one.
#[verifier::spinoff_prover]
pub proof fn lemma_first_index_at(s: Seq<char>, c: char, i: int)
    requires
        0 <= i < s.len(),
        s[i] == c,
        forall|k: int| 0 <= k < i ==> s[k] != c,
    ensures
        first_index_of(s, c) == Some(i),
{
    assert(0 <= i < s.len() && s[i] == c && forall|k: int| 0 <= k < i ==> s[k] != c);
    let j = choose|j: int| 0 <= j < s.len() && s[j] == c && forall|k: int| 0 <= k < j ==> s[k] != c;
    if j < i {
        assert(s[j] != c);
    } else if j > i {
        assert(s[i] != c);
    }
}

/// A text that starts with a line and a newline: that line comes first,
/// without a `\r` before the newline, then the lines of the rest.
#[verifier::spinoff_prover]
pub proof fn lemma_text_lines_cons(l: Seq<char>, rest: Seq<char>)
    requires
        no_newline(l),
    ensures
        text_lines(l + seq!['\n'] + rest) == seq![without_cr(l)] + text_lines(rest),
{
    reveal(text_lines);
    let s = l + seq!['\n'] + rest;
    let i = l.len() as int;
    assert forall|k: int| 0 <= k < i implies s[k] != '\n' by {
        assert(s[k] == l[k]);
    }
    lemma_first_index_at(s, '\n', i);
    assert(s.subrange(0, i) =~= l);
    assert(s.subrange(i + 1, s.len() as int) =~= rest);
    if l.len() > 0 && l.last() == '\r' {
        assert(l.drop_last() == without_cr(l));
    }
}

/// The lines of a text that ends with a newline, followed by more text, are
/// its lines followed by those of the rest.
#[verifier::spinoff_prover]
pub proof fn lemma_text_lines_append(t: Seq<char>, u: Seq<char>)
    requires
        t.len() == 0 || t.last() == '\n',
    ensures
        text_lines(t + u) == text_lines(t) + text_lines(u),
    decreases t.len(),
{
    if t.len() == 0 {
        assert(t + u =~= u);
        assert(text_lines(t) =~= Seq::<Seq<char>>::empty()) by {
            reveal(text_lines);
        }
        assert(text_lines(t) + text_lines(u) =~= text_lines(u));
    } else {
        let i = lemma_first_occurrence(t, '\n', t.len() - 1);
        let l = t.subrange(0, i);
        let r = t.subrange(i + 1, t.len() as int);
        assert(no_newline(l));
        assert(r.len() == 0 || r.last() == '\n') by {
            if r.len() > 0 {
                assert(r.last() == t.last());
            }
        }
        assert(text_lines(t) == seq![without_cr(l)] + text_lines(r)) by {
            assert(t =~= l + seq!['\n'] + r);
            lemma_text_lines_cons(l, r);
        }
        assert(text_lines(t + u) == seq![without_cr(l)] + text_lines(r + u)) by {
            assert(t + u =~= l + seq!['\n'] + (r + u));
            lemma_text_lines_cons(l, r + u);
        }
        lemma_text_lines_append(r, u);
        assert(seq![without_cr(l)] + (text_lines(r) + text_lines(u)) =~= (seq![without_cr(l)]
            + text_lines(r)) + text_lines(u));
    }
}

/// A text without newlines is one line, or none when it is empty.
#[verifier::spinoff_prover]
pub proof fn lemma_text_lines_single(l: Seq<char>)
    requires
        no_newline(l),
    ensures
        text_lines(l) == (if l.len() == 0 {
            Seq::<Seq<char>>::empty()
        } else {
            seq![l]
        }),
{
    reveal(text_lines);
    if l.len() > 0 {
        assert(!exists|i: int| 0 <= i < l.len() && l[i] == '\n');
    }
}

/// One more line after lines that read back as themselves.
#[verifier::spinoff_prover]
proof fn lemma_lines_step(init: Seq<Seq<char>>, l: Seq<char>, last: Seq<char>)
    requires
        text_lines(joined_lines(init)) == init,
        no_newline(l),
        without_cr(l) == l,
        no_newline(last),
    ensures
        text_lines(joined_lines(init.push(l)) + last) == init + seq![l] + text_lines(last),
{
    let j = joined_lines(init);
    let x = l + seq!['\n'] + last;
    let ls = init.push(l);
    assert(ls.drop_last() =~= init);
    assert(joined_lines(ls) == j + l + seq!['\n']);
    if init.len() > 0 {
        assert(j.last() == '\n');
    }
    assert(joined_lines(ls) + last =~= j + x);
    lemma_text_lines_append(j, x);
    lemma_text_lines_cons(l, last);
    assert(init + (seq![l] + text_lines(last)) =~= init + seq![l] + text_lines(last));
}

/// Lines joined with newlines read back as the same lines, and a last line
/// that no newline ends is kept as the last one: the lines of
/// `l0\n l1\n ... lk\n last` are `l0, ..., lk, last` (without `last` when
/// it is empty).
pub proof fn lemma_lines_of_joined(ls: Seq<Seq<char>>, last: Seq<char>)
    requires
        forall|i: int|
            0 <= i < ls.len() ==> no_newline(#[trigger] ls[i]) && without_cr(ls[i]) == ls[i],
        no_newline(last),
    ensures
        text_lines(joined_lines(ls) + last) == (if last.len() == 0 {
            ls
        } else {
            ls.push(last)
        }),
    decreases ls.len(),
{
    lemma_text_lines_single(last);
    if ls.len() == 0 {
        assert(joined_lines(ls) + last =~= last);
        if last.len() == 0 {
            assert(ls =~= Seq::<Seq<char>>::empty());
        } else {
            assert(ls.push(last) =~= seq![last]);
        }
    } else {
        let init = ls.drop_last();
        let l = ls.last();
        assert(ls[ls.len() - 1] == l);
        assert forall|i: int| 0 <= i < init.len() implies no_newline(#[trigger] init[i])
            && without_cr(init[i]) == init[i] by {
            assert(init[i] == ls[i]);
        }
        let e = Seq::<char>::empty();
        lemma_lines_of_joined(init, e);
        assert(joined_lines(init) + e =~= joined_lines(init));
        assert(init.push(l) =~= ls);
        lemma_lines_step(init, l, last);
        if last.len() == 0 {
            assert(init + seq![l] + Seq::<Seq<char>>::empty() =~= ls);
        } else {
            assert(init + seq![l] + seq![last] =~= ls.push(last));
        }
    }
}

/// The characters after the last newline of a text, when there are any,
/// are its last line: the lines of `t + l`, where `t` is empty or ends with
/// a newline and `l` is a non-empty text without one, are those of `t` and
/// then `l`.
#[verifier::spinoff_prover]
pub proof fn lemma_last_line_kept(t: Seq<char>, l: Seq<char>)
    requires
        t.len() == 0 || t.last() == '\n',
        l.len() > 0,
        no_newline(l),
    ensures
        text_lines(t + l) == text_lines(t).push(l),
{
    lemma_text_lines_append(t, l);
    lemma_text_lines_single(l);
    assert(text_lines(t) + seq![l] =~= text_lines(t).push(l));
}

/// Whether `s` begins with `p`, as `str::starts_with`.
pub fn starts_with_chars(s: &[char], p: &[char]) -> (r: bool)
    ensures
        r == p@.is_prefix_of(s@),
{
    if p.len() > s.len() {
        return false;
    }
    let mut k: usize = 0;
    while k < p.len()
        invariant
            p@.len() <= s@.len(),
            k <= p@.len(),
            forall|m: int| 0 <= m < k ==> s@[m] == p@[m],
        decreases p@.len() - k,
    {
        if s[k] != p[k] {
            assert(s@.subrange(0, p@.len() as int)[k as int] != p@[k as int]);
            return false;
        }
        k = k + 1;
    }
    assert(s@.subrange(0, p@.len() as int) =~= p@);
    true
}

/// Whether `s` ends with `p`, as `str::ends_with`.
pub fn ends_with_chars(s: &[char], p: &[char]) -> (r: bool)
    ensures
        r == p@.is_suffix_of(s@),
{
    if p.len() > s.len() {
        return false;
    }
    let off = s.len() - p.len();
    let mut k: usize = 0;
    while k < p.len()
        invariant
            p@.len() <= s@.len(),
            off + p@.len() == s@.len(),
            s@.len() <= usize::MAX,
            k <= p@.len(),
            forall|m: int| 0 <= m < k ==> s@[off + m] == p@[m],
        decreases p@.len() - k,
    {
        if s[off + k] != p[k] {
            assert(s@.subrange(off as int, s@.len() as int)[k as int] != p@[k as int]);
            return false;
        }
        k = k + 1;
    }
    assert(s@.subrange(off as int, s@.len() as int) =~= p@);
    true
}


/// The characters of `s` before its first white space.
pub open spec fn first_word(s: Seq<char>) -> Seq<char>
    decreases s.len(),
{
    if s.len() == 0 || is_white_space(s[0]) {
        Seq::empty()
    } else {
        seq![s[0]] + first_word(s.drop_first())
    }
}

proof fn lemma_first_word(s: Seq<char>, i: int)
    requires
        0 <= i <= s.len(),
        forall|k: int| 0 <= k < i ==> !is_white_space(#[trigger] s[k]),
        i == s.len() || is_white_space(s[i]),
    ensures
        first_word(s) == s.subrange(0, i),
    decreases i,
{
    if i > 0 {
        assert forall|k: int| 0 <= k < i - 1 implies !is_white_space(#[trigger] s.drop_first()[k]) by {
            assert(s.drop_first()[k] == s[k + 1]);
        }
        lemma_first_word(s.drop_first(), i - 1);
        assert(seq![s[0]] + s.drop_first().subrange(0, i - 1) =~= s.subrange(0, i));
    } else {
        assert(s.subrange(0, 0) =~= Seq::<char>::empty());
    }
}

/// Where the word that starts at `from` ends: at the next white space, or
/// at the end.
pub fn word_end(s: &[char], from: usize) -> (e: usize)
    requires
        from <= s@.len(),
    ensures
        from <= e <= s@.len(),
        s@.subrange(from as int, e as int) == first_word(s@.subrange(from as int, s@.len() as int)),
{
    let mut e: usize = from;
    while e < s.len() && !white_space(s[e])
        invariant
            from <= e <= s@.len(),
            forall|k: int| from <= k < e ==> !is_white_space(#[trigger] s@[k]),
        decreases s@.len() - e,
    {
        e = e + 1;
    }
    proof {
        let t = s@.subrange(from as int, s@.len() as int);
        assert forall|k: int| 0 <= k < e - from implies !is_white_space(#[trigger] t[k]) by {
            assert(t[k] == s@[k + from]);
        }
        lemma_first_word(t, e - from);
        assert(t.subrange(0, e - from) =~= s@.subrange(from as int, e as int));
    }
    e
}

/// Where the text after the white space at `from` starts.
pub fn skip_white_space(s: &[char], from: usize) -> (e: usize)
    requires
        from <= s@.len(),
    ensures
        from <= e <= s@.len(),
        s@.subrange(e as int, s@.len() as int) == trim_start(s@.subrange(from as int, s@.len() as int)),
{
    let mut e: usize = from;
    while e < s.len() && white_space(s[e])
        invariant
            from <= e <= s@.len(),
            forall|k: int| from <= k < e ==> is_white_space(#[trigger] s@[k]),
        decreases s@.len() - e,
    {
        e = e + 1;
    }
    proof {
        let t = s@.subrange(from as int, s@.len() as int);
        assert forall|k: int| 0 <= k < e - from implies is_white_space(#[trigger] t[k]) by {
            assert(t[k] == s@[k + from]);
        }
        lemma_trim_start_subrange(t, e - from);
        assert(t.subrange(e - from, t.len() as int) =~= s@.subrange(e as int, s@.len() as int));
        let r = s@.subrange(e as int, s@.len() as int);
        if r.len() > 0 {
            assert(r[0] == s@[e as int]);
        }
    }
    e
}


/// The index of the last occurrence of `c` in `s`, if any.
pub open spec fn last_index_of(s: Seq<char>, c: char) -> Option<int>
    decreases s.len(),
{
    if s.len() == 0 {
        None
    } else if s.last() == c {
        Some(s.len() - 1)
    } else {
        last_index_of(s.drop_last(), c)
    }
}

/// Where `c` last occurs in `s`, as `str::rfind` with a character.
pub fn rfind_char(s: &[char], c: char) -> (res: Option<usize>)
    ensures
        match last_index_of(s@, c) {
            Some(i) => res == Some(i as usize) && 0 <= i < s@.len(),
            None => res is None,
        },
{
    let mut k: usize = s.len();
    assert(s@.subrange(0, k as int) =~= s@);
    while k > 0
        invariant
            k <= s@.len(),
            last_index_of(s@, c) == last_index_of(s@.subrange(0, k as int), c),
        decreases k,
    {
        let ghost t = s@.subrange(0, k as int);
        assert(t.drop_last() =~= s@.subrange(0, k - 1));
        if s[k - 1] == c {
            return Some(k - 1);
        }
        k = k - 1;
    }
    assert(s@.subrange(0, 0) =~= Seq::<char>::empty());
    None
}

} // verus!
