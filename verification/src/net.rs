//! Socket addresses in text form: `a.b.c.d:port` and `[ipv6%scope]:port`.
//!
//! The grammar is the one the standard library accepts for a socket address:
//! IPv4 octets in decimal without leading zeros, IPv6 groups of up to four
//! hexadecimal digits with at most one `::` and an optional trailing IPv4
//! part, an optional numeric scope, and a decimal port. The whole text must
//! be consumed.

use vstd::prelude::*;

use crate::text::{append_chars, decimal, decimal_chars, digit_char, string_of};

verus! {

/// A socket address, as numbers.
pub enum SpecSocketAddr {
    V4 { octets: Seq<u8>, port: u16 },
    V6 { segments: Seq<u16>, port: u16, scope_id: u32 },
}

/// A socket address: four octets or eight 16-bit segments, and a port.
#[derive(Clone, Debug, PartialEq, Eq)]
pub enum SocketAddress {
    V4 { octets: Vec<u8>, port: u16 },
    V6 { segments: Vec<u16>, port: u16, scope_id: u32 },
}

impl View for SocketAddress {
    type V = SpecSocketAddr;

    open spec fn view(&self) -> SpecSocketAddr {
        match self {
            SocketAddress::V4 { octets, port } => SpecSocketAddr::V4 { octets: octets@, port: *port },
            SocketAddress::V6 { segments, port, scope_id } => SpecSocketAddr::V6 {
                segments: segments@,
                port: *port,
                scope_id: *scope_id,
            },
        }
    }
}

/// Whether the address has four octets or eight segments, as every address
/// of the standard library has.
pub open spec fn addr_wf(a: SpecSocketAddr) -> bool {
    match a {
        SpecSocketAddr::V4 { octets, .. } => octets.len() == 4,
        SpecSocketAddr::V6 { segments, .. } => segments.len() == 8,
    }
}

impl SocketAddress {
    /// The port of the address.
    pub fn port(&self) -> (p: u16)
        ensures
            p == match self@ {
                SpecSocketAddr::V4 { port, .. } => port,
                SpecSocketAddr::V6 { port, .. } => port,
            },
    {
        match self {
            SocketAddress::V4 { port, .. } => *port,
            SocketAddress::V6 { port, .. } => *port,
        }
    }

    /// Whether the address is an IPv6 one.
    pub fn is_ipv6(&self) -> (b: bool)
        ensures
            b == (self@ is V6),
    {
        match self {
            SocketAddress::V4 { .. } => false,
            SocketAddress::V6 { .. } => true,
        }
    }
}

/// The value of `c` as a digit in `radix` (10 or 16), as `char::to_digit`.
pub open spec fn digit_value(c: char, radix: nat) -> Option<nat> {
    if '0' <= c && c <= '9' {
        Some((c as nat - '0' as nat) as nat)
    } else if radix == 16 && 'a' <= c && c <= 'f' {
        Some((c as nat - 'a' as nat + 10) as nat)
    } else if radix == 16 && 'A' <= c && c <= 'F' {
        Some((c as nat - 'A' as nat + 10) as nat)
    } else {
        None
    }
}

/// How many digits in `radix` follow position `pos` of `s`.
pub open spec fn run_len(s: Seq<char>, pos: int, radix: nat) -> nat
    decreases s.len() - pos,
{
    if 0 <= pos < s.len() && digit_value(s[pos], radix) is Some {
        1 + run_len(s, pos + 1, radix)
    } else {
        0
    }
}

/// The number that the digits `d` write in `radix`.
pub open spec fn digits_value(d: Seq<char>, radix: nat) -> nat
    decreases d.len(),
{
    if d.len() == 0 {
        0
    } else {
        digits_value(d.drop_last(), radix) * radix + digit_value(d.last(), radix).unwrap()
    }
}

/// A number at `pos`: all the digits there (at least one, at most
/// `max_digits` when given), no leading zero unless allowed or alone, and a
/// value no greater than `bound`. Gives the value and the position after it.
pub open spec fn read_number(
    s: Seq<char>,
    pos: int,
    radix: nat,
    max_digits: Option<nat>,
    allow_zero_prefix: bool,
    bound: nat,
) -> Option<(nat, int)> {
    let n = run_len(s, pos, radix);
    if n == 0 {
        None
    } else if max_digits matches Some(m) && n > m {
        None
    } else if !allow_zero_prefix && s[pos] == '0' && n > 1 {
        None
    } else {
        let v = digits_value(s.subrange(pos, pos + n), radix);
        if v > bound {
            None
        } else {
            Some((v, pos + n))
        }
    }
}

/// Whether `c` stands at `pos`.
pub open spec fn char_at(s: Seq<char>, pos: int, c: char) -> bool {
    0 <= pos < s.len() && s[pos] == c
}

/// An IPv4 octet at `pos`.
pub open spec fn read_octet(s: Seq<char>, pos: int) -> Option<(nat, int)> {
    read_number(s, pos, 10, Some(3), false, 255)
}

/// An octet preceded by a dot.
pub open spec fn read_dot_octet(s: Seq<char>, pos: int) -> Option<(nat, int)> {
    if char_at(s, pos, '.') {
        read_octet(s, pos + 1)
    } else {
        None
    }
}

/// An IPv4 address at `pos`: four octets separated by dots.
pub open spec fn read_ipv4(s: Seq<char>, pos: int) -> Option<(Seq<u8>, int)> {
    match read_octet(s, pos) {
        None => None,
        Some((a, p1)) => match read_dot_octet(s, p1) {
            None => None,
            Some((b, p2)) => match read_dot_octet(s, p2) {
                None => None,
                Some((c, p3)) => match read_dot_octet(s, p3) {
                    None => None,
                    Some((d, p4)) => Some((seq![a as u8, b as u8, c as u8, d as u8], p4)),
                },
            },
        },
    }
}

/// The position after the separator that precedes group `i` (none for the
/// first group).
pub open spec fn after_sep(s: Seq<char>, pos: int, i: int) -> Option<int> {
    if i > 0 {
        if char_at(s, pos, ':') {
            Some(pos + 1)
        } else {
            None
        }
    } else {
        Some(pos)
    }
}

/// The 16-bit segment made of two octets.
pub open spec fn join_octets(hi: u8, lo: u8) -> u16 {
    (hi as nat * 256 + lo as nat) as u16
}

/// An IPv4 address standing as group `i` of an IPv6 address.
pub open spec fn read_sep_ipv4(s: Seq<char>, pos: int, i: int) -> Option<(Seq<u8>, int)> {
    match after_sep(s, pos, i) {
        Some(p) => read_ipv4(s, p),
        None => None,
    }
}

/// A hexadecimal group standing as group `i` of an IPv6 address.
pub open spec fn read_sep_group(s: Seq<char>, pos: int, i: int) -> Option<(nat, int)> {
    match after_sep(s, pos, i) {
        Some(p) => read_number(s, p, 16, Some(4), true, 65535),
        None => None,
    }
}

/// Up to `limit - i` groups from group `i` on: the groups read, the position
/// after them, and whether the last two came from a trailing IPv4 part.
pub open spec fn read_groups(s: Seq<char>, pos: int, i: int, limit: int) -> (Seq<u16>, int, bool)
    decreases limit - i,
{
    if i >= limit {
        (Seq::empty(), pos, false)
    } else {
        match (if i < limit - 1 {
            read_sep_ipv4(s, pos, i)
        } else {
            None
        }) {
            Some((o, p)) => (seq![join_octets(o[0], o[1]), join_octets(o[2], o[3])], p, true),
            None => match read_sep_group(s, pos, i) {
                Some((g, p)) => {
                    let rest = read_groups(s, p, i + 1, limit);
                    (seq![g as u16] + rest.0, rest.1, rest.2)
                },
                None => (Seq::empty(), pos, false),
            },
        }
    }
}

/// An IPv6 address at `pos`: eight groups, or a head and a tail around one
/// `::` that stands for the missing zero groups.
pub open spec fn read_ipv6(s: Seq<char>, pos: int) -> Option<(Seq<u16>, int)> {
    let (head, p1, head_ipv4) = read_groups(s, pos, 0, 8);
    if head.len() == 8 {
        Some((head, p1))
    } else if head_ipv4 {
        None
    } else if char_at(s, p1, ':') && char_at(s, p1 + 1, ':') {
        let (tail, p2, _) = read_groups(s, p1 + 2, 0, 8 - (head.len() + 1));
        Some((head + Seq::new((8 - head.len() - tail.len()) as nat, |k: int| 0u16) + tail, p2))
    } else {
        None
    }
}

/// A port at `pos`: a colon and a decimal number that fits in 16 bits.
pub open spec fn read_port(s: Seq<char>, pos: int) -> Option<(nat, int)> {
    if char_at(s, pos, ':') {
        read_number(s, pos + 1, 10, None, true, 65535)
    } else {
        None
    }
}

/// An optional scope at `pos`: `%` and a decimal number that fits in 32
/// bits; zero when there is none.
pub open spec fn read_scope(s: Seq<char>, pos: int) -> (nat, int) {
    if char_at(s, pos, '%') {
        match read_number(s, pos + 1, 10, None, true, 4294967295) {
            Some((v, p)) => (v, p),
            None => (0, pos),
        }
    } else {
        (0, pos)
    }
}

/// `s` read as an IPv4 socket address, if it starts with one.
pub open spec fn read_socket_v4(s: Seq<char>) -> Option<(SpecSocketAddr, int)> {
    match read_ipv4(s, 0) {
        Some((o, p1)) => match read_port(s, p1) {
            Some((port, p2)) => Some((SpecSocketAddr::V4 { octets: o, port: port as u16 }, p2)),
            None => None,
        },
        None => None,
    }
}

/// `s` read as an IPv6 socket address, if it starts with one.
pub open spec fn read_socket_v6(s: Seq<char>) -> Option<(SpecSocketAddr, int)> {
    if char_at(s, 0, '[') {
        match read_ipv6(s, 1) {
            Some((g, p1)) => {
                let (scope, p2) = read_scope(s, p1);
                if char_at(s, p2, ']') {
                    match read_port(s, p2 + 1) {
                        Some((port, p3)) => Some(
                            (
                                SpecSocketAddr::V6 {
                                    segments: g,
                                    port: port as u16,
                                    scope_id: scope as u32,
                                },
                                p3,
                            ),
                        ),
                        None => None,
                    }
                } else {
                    None
                }
            },
            None => None,
        }
    } else {
        None
    }
}

/// The socket address that the whole of `s` writes, if any.
#[verifier::opaque]
pub open spec fn socket_addr_of(s: Seq<char>) -> Option<SpecSocketAddr> {
    let r = match read_socket_v4(s) {
        Some(x) => Some(x),
        None => read_socket_v6(s),
    };
    match r {
        Some((a, p)) => if p == s.len() {
            Some(a)
        } else {
            None
        },
        None => None,
    }
}

fn digit_of(c: char, radix: u64) -> (res: Option<u64>)
    requires
        radix == 10 || radix == 16,
    ensures
        match res {
            Some(d) => digit_value(c, radix as nat) == Some(d as nat) && d < radix,
            None => digit_value(c, radix as nat) is None,
        },
{
    if '0' <= c && c <= '9' {
        Some(c as u64 - '0' as u64)
    } else if radix == 16 && 'a' <= c && c <= 'f' {
        Some(c as u64 - 'a' as u64 + 10)
    } else if radix == 16 && 'A' <= c && c <= 'F' {
        Some(c as u64 - 'A' as u64 + 10)
    } else {
        None
    }
}

proof fn lemma_value_grows(d: Seq<char>, radix: nat)
    requires
        d.len() > 0,
        radix >= 1,
        digit_value(d.last(), radix) is Some,
    ensures
        digits_value(d, radix) >= digits_value(d.drop_last(), radix),
{
    let a = digits_value(d.drop_last(), radix);
    let b = digit_value(d.last(), radix).unwrap();
    assert(a * radix + b >= a) by (nonlinear_arith)
        requires
            radix >= 1,
    ;
}

/// The number at `pos`, as `read_number` describes it.
fn read_number_at(
    s: &[char],
    pos: usize,
    radix: u64,
    max_digits: Option<u64>,
    allow_zero_prefix: bool,
    bound: u64,
) -> (res: Option<(u64, usize)>)
    requires
        pos <= s@.len() <= usize::MAX,
        radix == 10 || radix == 16,
        bound <= 4294967295,
    ensures
        match read_number(
            s@,
            pos as int,
            radix as nat,
            match max_digits {
                Some(m) => Some(m as nat),
                None => None,
            },
            allow_zero_prefix,
            bound as nat,
        ) {
            Some((v, p)) => res == Some((v as u64, p as usize)),
            None => res is None,
        },
{
    let ghost md: Option<nat> = match max_digits {
        Some(m) => Some(m as nat),
        None => None,
    };
    let n = s.len();
    let mut k = pos;
    let mut v: u64 = 0;
    let mut over = false;
    while k < n
        invariant
            pos <= k <= n == s@.len(),
            radix == 10 || radix == 16,
            bound <= 4294967295,
            run_len(s@, pos as int, radix as nat) == (k - pos) + run_len(s@, k as int, radix as nat),
            forall|m: int| pos <= m < k ==> digit_value(#[trigger] s@[m], radix as nat) is Some,
            !over ==> v as nat == digits_value(s@.subrange(pos as int, k as int), radix as nat),
            !over ==> v <= bound,
            over ==> digits_value(s@.subrange(pos as int, k as int), radix as nat) > bound,
        ensures
            pos <= k <= n == s@.len(),
            run_len(s@, pos as int, radix as nat) == (k - pos) + run_len(s@, k as int, radix as nat),
            k == n || digit_value(s@[k as int], radix as nat) is None,
            !over ==> v as nat == digits_value(s@.subrange(pos as int, k as int), radix as nat),
            !over ==> v <= bound,
            over ==> digits_value(s@.subrange(pos as int, k as int), radix as nat) > bound,
        decreases n - k,
    {
        match digit_of(s[k], radix) {
            None => {
                break;
            },
            Some(d) => {
                let ghost prev = s@.subrange(pos as int, k as int);
                let ghost next = s@.subrange(pos as int, k + 1);
                assert(next.drop_last() =~= prev);
                assert(next.last() == s@[k as int]);
                assert(digits_value(next, radix as nat) == digits_value(prev, radix as nat)
                    * radix as nat + d as nat);
                if !over {
                    assert(v * radix + d <= 4294967295 * 16 + 15) by (nonlinear_arith)
                        requires
                            v <= 4294967295,
                            radix <= 16,
                            d < radix,
                    ;
                    let nv = v * radix + d;
                    if nv > bound {
                        over = true;
                    } else {
                        v = nv;
                    }
                } else {
                    proof {
                        lemma_value_grows(next, radix as nat);
                    }
                }
                k = k + 1;
            },
        }
    }
    let count = k - pos;
    proof {
        assert(run_len(s@, k as int, radix as nat) == 0);
    }
    if count == 0 {
        return None;
    }
    match max_digits {
        Some(m) => {
            if count as u64 > m {
                return None;
            }
        },
        None => {},
    }
    if !allow_zero_prefix && s[pos] == '0' && count > 1 {
        return None;
    }
    if over {
        return None;
    }
    Some((v, k))
}

fn char_at_pos(s: &[char], pos: usize, c: char) -> (b: bool)
    ensures
        b == char_at(s@, pos as int, c),
        b ==> pos < s.len(),
{
    pos < s.len() && s[pos] == c
}

fn read_octet_at(s: &[char], pos: usize) -> (res: Option<(u8, usize)>)
    requires
        pos <= s@.len() <= usize::MAX,
    ensures
        match read_octet(s@, pos as int) {
            Some((v, p)) => res == Some((v as u8, p as usize)) && v <= 255 && pos < p <= s@.len(),
            None => res is None,
        },
{
    match read_number_at(s, pos, 10, Some(3), false, 255) {
        Some((v, p)) => {
            proof {
                assert(run_len(s@, pos as int, 10) >= 1);
                lemma_run_len_bound(s@, pos as int, 10);
            }
            Some((v as u8, p))
        },
        None => None,
    }
}

proof fn lemma_run_len_bound(s: Seq<char>, pos: int, radix: nat)
    requires
        0 <= pos <= s.len(),
    ensures
        pos + run_len(s, pos, radix) <= s.len(),
    decreases s.len() - pos,
{
    if 0 <= pos < s.len() && digit_value(s[pos], radix) is Some {
        lemma_run_len_bound(s, pos + 1, radix);
    }
}

fn read_dot_octet_at(s: &[char], pos: usize) -> (res: Option<(u8, usize)>)
    requires
        pos <= s@.len() <= usize::MAX,
    ensures
        match read_dot_octet(s@, pos as int) {
            Some((v, p)) => res == Some((v as u8, p as usize)) && v <= 255 && pos < p <= s@.len(),
            None => res is None,
        },
{
    if char_at_pos(s, pos, '.') {
        read_octet_at(s, pos + 1)
    } else {
        None
    }
}

fn read_ipv4_at(s: &[char], pos: usize) -> (res: Option<(Vec<u8>, usize)>)
    requires
        pos <= s@.len() <= usize::MAX,
    ensures
        match read_ipv4(s@, pos as int) {
            Some((o, p)) => res matches Some((v, q)) && v@ == o && q == p && pos < p <= s@.len()
                && o.len() == 4,
            None => res is None,
        },
{
    let (a, p1) = match read_octet_at(s, pos) {
        Some(x) => x,
        None => return None,
    };
    let (b, p2) = match read_dot_octet_at(s, p1) {
        Some(x) => x,
        None => return None,
    };
    let (c, p3) = match read_dot_octet_at(s, p2) {
        Some(x) => x,
        None => return None,
    };
    let (d, p4) = match read_dot_octet_at(s, p3) {
        Some(x) => x,
        None => return None,
    };
    let mut v: Vec<u8> = Vec::new();
    v.push(a);
    v.push(b);
    v.push(c);
    v.push(d);
    proof {
        let (ga, _) = read_octet(s@, pos as int).unwrap();
        let (gb, _) = read_dot_octet(s@, p1 as int).unwrap();
        let (gc, _) = read_dot_octet(s@, p2 as int).unwrap();
        let (gd, _) = read_dot_octet(s@, p3 as int).unwrap();
        assert(v@ =~= seq![ga as u8, gb as u8, gc as u8, gd as u8]);
    }
    Some((v, p4))
}

fn after_sep_at(s: &[char], pos: usize, i: usize) -> (res: Option<usize>)
    requires
        pos <= s@.len() <= usize::MAX,
    ensures
        match after_sep(s@, pos as int, i as int) {
            Some(p) => res == Some(p as usize) && p <= s@.len(),
            None => res is None,
        },
{
    if i > 0 {
        if char_at_pos(s, pos, ':') {
            Some(pos + 1)
        } else {
            None
        }
    } else {
        Some(pos)
    }
}

fn join(hi: u8, lo: u8) -> (r: u16)
    ensures
        r == join_octets(hi, lo),
{
    (hi as u16) * 256 + (lo as u16)
}

fn read_groups_at(s: &[char], pos: usize, i: usize, limit: usize) -> (res: (Vec<u16>, usize, bool))
    requires
        pos <= s@.len() <= usize::MAX,
        i <= 8,
        limit <= 8,
    ensures
        (res.0@, res.1 as int, res.2) == read_groups(s@, pos as int, i as int, limit as int),
        res.1 <= s@.len(),
        res.0@.len() <= (if limit >= i { limit - i } else { 0 }),
    decreases limit - i,
{
    if i >= limit {
        return (Vec::new(), pos, false);
    }
    if i + 1 < limit {
        match after_sep_at(s, pos, i) {
            Some(p) => match read_ipv4_at(s, p) {
                Some((o, p2)) => {
                    let mut g: Vec<u16> = Vec::new();
                    g.push(join(o[0], o[1]));
                    g.push(join(o[2], o[3]));
                    proof {
                        let (go, _) = read_ipv4(s@, p as int).unwrap();
                        assert(g@ =~= seq![join_octets(go[0], go[1]), join_octets(go[2], go[3])]);
                    }
                    return (g, p2, true);
                },
                None => {},
            },
            None => {},
        }
    }
    let p = match after_sep_at(s, pos, i) {
        Some(p) => p,
        None => return (Vec::new(), pos, false),
    };
    match read_number_at(s, p, 16, Some(4), true, 65535) {
        Some((g, p2)) => {
            proof {
                lemma_run_len_bound(s@, p as int, 16);
            }
            let (mut rest, p3, b) = read_groups_at(s, p2, i + 1, limit);
            let ghost r0 = rest@;
            rest.insert(0, g as u16);
            assert(rest@ =~= seq![g as u16] + r0);
            (rest, p3, b)
        },
        None => (Vec::new(), pos, false),
    }
}

fn read_ipv6_at(s: &[char], pos: usize) -> (res: Option<(Vec<u16>, usize)>)
    requires
        pos <= s@.len() <= usize::MAX,
    ensures
        match read_ipv6(s@, pos as int) {
            Some((g, p)) => res matches Some((v, q)) && v@ == g && q == p && p <= s@.len()
                && g.len() == 8,
            None => res is None,
        },
{
    let (head, p1, head_ipv4) = read_groups_at(s, pos, 0, 8);
    if head.len() == 8 {
        return Some((head, p1));
    }
    if head_ipv4 {
        return None;
    }
    if !(char_at_pos(s, p1, ':') && char_at_pos(s, p1 + 1, ':')) {
        return None;
    }
    let hl = head.len();
    let (tail, p2, _) = read_groups_at(s, p1 + 2, 0, 8 - (hl + 1));
    let zeros = 8 - hl - tail.len();
    let mut out = head;
    let mut k: usize = 0;
    let ghost h = out@;
    while k < zeros
        invariant
            k <= zeros,
            out@ == h + Seq::new(k as nat, |m: int| 0u16),
        decreases zeros - k,
    {
        out.push(0u16);
        k = k + 1;
        assert(out@ =~= h + Seq::new(k as nat, |m: int| 0u16));
    }
    let mut t: usize = 0;
    let ghost z = out@;
    while t < tail.len()
        invariant
            t <= tail@.len(),
            out@ == z + tail@.subrange(0, t as int),
        decreases tail@.len() - t,
    {
        out.push(tail[t]);
        t = t + 1;
        assert(out@ =~= z + tail@.subrange(0, t as int));
    }
    assert(tail@.subrange(0, tail@.len() as int) =~= tail@);
    Some((out, p2))
}

fn read_port_at(s: &[char], pos: usize) -> (res: Option<(u16, usize)>)
    requires
        pos <= s@.len() <= usize::MAX,
    ensures
        match read_port(s@, pos as int) {
            Some((v, p)) => res == Some((v as u16, p as usize)) && v <= 65535 && p <= s@.len(),
            None => res is None,
        },
{
    if char_at_pos(s, pos, ':') {
        match read_number_at(s, pos + 1, 10, None, true, 65535) {
            Some((v, p)) => {
                proof {
                    lemma_run_len_bound(s@, pos + 1, 10);
                }
                Some((v as u16, p))
            },
            None => None,
        }
    } else {
        None
    }
}

fn read_scope_at(s: &[char], pos: usize) -> (res: (u32, usize))
    requires
        pos <= s@.len() <= usize::MAX,
    ensures
        res.0 as nat == read_scope(s@, pos as int).0,
        res.1 as int == read_scope(s@, pos as int).1,
        res.1 <= s@.len(),
{
    if char_at_pos(s, pos, '%') {
        match read_number_at(s, pos + 1, 10, None, true, 4294967295) {
            Some((v, p)) => {
                proof {
                    lemma_run_len_bound(s@, pos + 1, 10);
                }
                (v as u32, p)
            },
            None => (0, pos),
        }
    } else {
        (0, pos)
    }
}

/// Whether the whole of `w` writes an IP address, IPv4 or IPv6, as the
/// standard library reads one.
pub open spec fn ip_address(w: Seq<char>) -> bool {
    ||| read_ipv4(w, 0) matches Some((_, p)) && p == w.len()
    ||| read_ipv6(w, 0) matches Some((_, p)) && p == w.len()
}

/// Whether the whole of `text` writes an IP address.
pub fn is_ip_address(text: &[char]) -> (b: bool)
    ensures
        b == ip_address(text@),
{
    let n = text.len();
    if let Some((_, p)) = read_ipv4_at(text, 0) {
        if p == n {
            return true;
        }
    }
    match read_ipv6_at(text, 0) {
        Some((_, p)) => p == n,
        None => false,
    }
}

/// The socket address that `text` writes, as the standard library reads it.
pub fn parse_socket_addr(text: &[char]) -> (res: Option<SocketAddress>)
    ensures
        match socket_addr_of(text@) {
            Some(a) => res matches Some(r) && r@ == a && addr_wf(a),
            None => res is None,
        },
{
    reveal(socket_addr_of);
    let s = text;
    assert(s@.len() == s.len());
    let v4: Option<(SocketAddress, usize)> = match read_ipv4_at(s, 0) {
        Some((o, p1)) => match read_port_at(s, p1) {
            Some((port, p2)) => Some((SocketAddress::V4 { octets: o, port }, p2)),
            None => None,
        },
        None => None,
    };
    let r = match v4 {
        Some(x) => Some(x),
        None => {
            if char_at_pos(s, 0, '[') {
                match read_ipv6_at(s, 1) {
                    Some((g, p1)) => {
                        let (scope, p2) = read_scope_at(s, p1);
                        if char_at_pos(s, p2, ']') {
                            match read_port_at(s, p2 + 1) {
                                Some((port, p3)) => Some(
                                    (SocketAddress::V6 { segments: g, port, scope_id: scope }, p3),
                                ),
                                None => None,
                            }
                        } else {
                            None
                        }
                    },
                    None => None,
                }
            } else {
                None
            }
        },
    };
    match r {
        Some((a, p)) => if p == s.len() {
            Some(a)
        } else {
            None
        },
        None => None,
    }
}


/// A hexadecimal digit, lowercase.
pub open spec fn hex_digit(d: nat) -> char {
    if d < 10 {
        digit_char(d)
    } else {
        ((d + 87) as u32) as char
    }
}

/// The lowercase hexadecimal digits of `n`, without leading zeros, as
/// `{:x}` writes them.
pub open spec fn hex(n: nat) -> Seq<char>
    decreases n,
{
    if n < 16 {
        seq![hex_digit(n)]
    } else {
        hex(n / 16).push(hex_digit(n % 16))
    }
}

/// An IPv4 address in dotted decimal.
pub open spec fn ipv4_text(o: Seq<u8>) -> Seq<char> {
    decimal(o[0] as nat) + seq!['.'] + decimal(o[1] as nat) + seq!['.'] + decimal(o[2] as nat)
        + seq!['.'] + decimal(o[3] as nat)
}

/// Segments in hexadecimal, separated by colons.
pub open spec fn groups_text(g: Seq<u16>) -> Seq<char>
    decreases g.len(),
{
    if g.len() == 0 {
        Seq::empty()
    } else if g.len() == 1 {
        hex(g[0] as nat)
    } else {
        groups_text(g.drop_last()) + seq![':'] + hex(g.last() as nat)
    }
}

/// Whether the `len` segments from `start` on are all zero and end at or
/// before `end`.
pub open spec fn zero_run(g: Seq<u16>, end: int, start: int, len: int) -> bool {
    &&& 0 <= start
    &&& 0 <= len
    &&& start + len <= end <= g.len()
    &&& forall|k: int| start <= k < start + len ==> g[k] == 0
}

/// Whether the run at `start` is a longest run of zero segments before
/// `end`, and the first of the longest ones.
pub open spec fn longest_zero_run(g: Seq<u16>, end: int, start: int, len: int) -> bool {
    &&& zero_run(g, end, start, len)
    &&& forall|s: int, l: int| #[trigger] zero_run(g, end, s, l) ==> l <= len
    &&& forall|s: int| #[trigger] zero_run(g, end, s, len) ==> start <= s
}

/// The first longest run of zero segments of an address.
pub open spec fn zero_span(g: Seq<u16>) -> (int, int) {
    choose|s: int, l: int| longest_zero_run(g, g.len() as int, s, l)
}

/// Whether the segments are those of an IPv4-mapped address `::ffff:a.b.c.d`.
pub open spec fn is_ipv4_mapped(g: Seq<u16>) -> bool {
    g[0] == 0 && g[1] == 0 && g[2] == 0 && g[3] == 0 && g[4] == 0 && g[5] == 0xffff
}

/// An IPv6 address as the standard library writes it: an IPv4-mapped one as
/// `::ffff:` and dotted decimal; otherwise hexadecimal segments, with the
/// first longest run of two or more zero segments written as `::`.
pub open spec fn ipv6_text(g: Seq<u16>) -> Seq<char> {
    if is_ipv4_mapped(g) {
        seq![':', ':', 'f', 'f', 'f', 'f', ':'] + ipv4_text(
            seq![(g[6] / 256) as u8, (g[6] % 256) as u8, (g[7] / 256) as u8, (g[7] % 256) as u8],
        )
    } else {
        let (s, l) = zero_span(g);
        if l > 1 {
            groups_text(g.subrange(0, s)) + seq![':', ':'] + groups_text(g.subrange(s + l, 8))
        } else {
            groups_text(g)
        }
    }
}

/// A socket address as the standard library writes it: `a.b.c.d:port`, or
/// `[ipv6]:port` with `%scope` before the bracket when the scope is not zero.
pub open spec fn socket_text(a: SpecSocketAddr) -> Seq<char> {
    match a {
        SpecSocketAddr::V4 { octets, port } => ipv4_text(octets) + seq![':'] + decimal(port as nat),
        SpecSocketAddr::V6 { segments, port, scope_id } => seq!['['] + ipv6_text(segments) + (if scope_id
            == 0 {
            Seq::empty()
        } else {
            seq!['%'] + decimal(scope_id as nat)
        }) + seq![']', ':'] + decimal(port as nat),
    }
}

/// Two first longest runs of zeros are the same run.
proof fn lemma_longest_zero_run_unique(g: Seq<u16>, end: int, s1: int, l1: int, s2: int, l2: int)
    requires
        longest_zero_run(g, end, s1, l1),
        longest_zero_run(g, end, s2, l2),
    ensures
        s1 == s2 && l1 == l2,
{
    assert(zero_run(g, end, s1, l1));
    assert(zero_run(g, end, s2, l2));
    assert(l1 == l2);
    assert(zero_run(g, end, s1, l2));
    assert(zero_run(g, end, s2, l1));
}

fn longest_zero_run_of(g: &[u16]) -> (res: (usize, usize))
    ensures
        longest_zero_run(g@, g@.len() as int, res.0 as int, res.1 as int),
{
    let mut best_start: usize = 0;
    let mut best_len: usize = 0;
    let mut cur_start: usize = 0;
    let mut i: usize = 0;
    while i < g.len()
        invariant
            i <= g@.len(),
            cur_start <= i,
            zero_run(g@, i as int, cur_start as int, i - cur_start),
            cur_start > 0 ==> g@[cur_start - 1] != 0,
            longest_zero_run(g@, i as int, best_start as int, best_len as int),
        decreases g@.len() - i,
    {
        let ghost gs = g@;
        let ghost old_i = i as int;
        let ghost old_bs = best_start as int;
        let ghost old_bl = best_len as int;
        let ghost old_cs = cur_start as int;
        if g[i] == 0 {
            let cur_len = i + 1 - cur_start;
            if cur_len > best_len {
                best_start = cur_start;
                best_len = cur_len;
            }
            i = i + 1;
            proof {
                assert(zero_run(gs, i as int, cur_start as int, i - cur_start));
                assert forall|s: int, l: int| #[trigger] zero_run(gs, i as int, s, l) implies l
                    <= best_len by {
                    if s + l <= old_i {
                        assert(zero_run(gs, old_i, s, l));
                    } else if l > 0 && s < old_cs {
                        assert(gs[old_cs - 1] == 0);
                    }
                }
                assert forall|s: int| #[trigger] zero_run(gs, i as int, s, best_len as int) implies best_start
                    <= s by {
                    if s + best_len <= old_i {
                        assert(zero_run(gs, old_i, s, best_len as int));
                        if best_len as int > old_bl {
                            assert(false);
                        }
                    } else if best_len > 0 && s < old_cs {
                        assert(gs[old_cs - 1] == 0);
                    } else if best_len as int == old_bl && best_len > 0 {
                        assert(s >= old_cs);
                        if old_bs > old_cs {
                            assert(zero_run(gs, old_i, old_bs, old_bl));
                            assert(zero_run(gs, old_i, old_cs, old_i - old_cs));
                        }
                    }
                }
            }
        } else {
            i = i + 1;
            cur_start = i;
            proof {
                assert forall|s: int, l: int| #[trigger] zero_run(gs, i as int, s, l) implies l
                    <= best_len by {
                    if s + l <= old_i {
                        assert(zero_run(gs, old_i, s, l));
                    } else if l > 0 {
                        assert(gs[old_i] == 0);
                    }
                }
                assert forall|s: int| #[trigger] zero_run(gs, i as int, s, best_len as int) implies best_start
                    <= s by {
                    if s + best_len <= old_i {
                        assert(zero_run(gs, old_i, s, best_len as int));
                    } else if best_len > 0 {
                        assert(gs[old_i] == 0);
                    } else {
                        assert(zero_run(gs, old_i, 0, 0));
                        assert(best_start <= 0) by {
                            assert(zero_run(gs, old_i, 0, best_len as int));
                        }
                    }
                }
            }
        }
    }
    (best_start, best_len)
}

fn hex_digit_of(d: u16) -> (c: char)
    requires
        d < 16,
    ensures
        c == hex_digit(d as nat),
{
    if d < 10 {
        let b: u8 = (d as u8) + 48;
        b as char
    } else {
        let b: u8 = (d as u8) + 87;
        b as char
    }
}

fn push_hex(out: &mut Vec<char>, n: u16)
    ensures
        final(out)@ == old(out)@ + hex(n as nat),
    decreases n,
{
    if n < 16 {
        out.push(hex_digit_of(n));
        assert(hex(n as nat) =~= seq![hex_digit(n as nat)]);
    } else {
        let ghost o0 = out@;
        push_hex(out, n / 16);
        out.push(hex_digit_of(n % 16));
        assert(out@ =~= o0 + hex(n as nat));
    }
}

fn push_decimal(out: &mut Vec<char>, n: u64)
    ensures
        final(out)@ == old(out)@ + decimal(n as nat),
{
    let d = decimal_chars(n);
    append_chars(out, d.as_slice());
}

fn push_ipv4(out: &mut Vec<char>, o: &[u8])
    requires
        o@.len() == 4,
    ensures
        final(out)@ == old(out)@ + ipv4_text(o@),
{
    let ghost o0 = out@;
    push_decimal(out, o[0] as u64);
    out.push('.');
    push_decimal(out, o[1] as u64);
    out.push('.');
    push_decimal(out, o[2] as u64);
    out.push('.');
    push_decimal(out, o[3] as u64);
    assert(out@ =~= o0 + ipv4_text(o@));
}

fn push_groups(out: &mut Vec<char>, g: &[u16], from: usize, to: usize)
    requires
        from <= to <= g@.len(),
    ensures
        final(out)@ == old(out)@ + groups_text(g@.subrange(from as int, to as int)),
{
    let ghost o0 = out@;
    let mut k: usize = from;
    assert(g@.subrange(from as int, from as int) =~= Seq::<u16>::empty());
    while k < to
        invariant
            from <= k <= to <= g@.len(),
            out@ == o0 + groups_text(g@.subrange(from as int, k as int)),
        decreases to - k,
    {
        let ghost before = out@;
        if k > from {
            out.push(':');
        }
        push_hex(out, g[k]);
        let ghost sub = g@.subrange(from as int, k + 1);
        assert(sub.drop_last() =~= g@.subrange(from as int, k as int));
        if k == from {
            assert(sub.len() == 1);
            assert(out@ =~= o0 + groups_text(sub));
        } else {
            assert(out@ =~= o0 + groups_text(sub));
        }
        k = k + 1;
    }
}

fn push_ipv6(out: &mut Vec<char>, g: &[u16])
    requires
        g@.len() == 8,
    ensures
        final(out)@ == old(out)@ + ipv6_text(g@),
{
    let ghost o0 = out@;
    if g[0] == 0 && g[1] == 0 && g[2] == 0 && g[3] == 0 && g[4] == 0 && g[5] == 0xffff {
        out.push(':');
        out.push(':');
        out.push('f');
        out.push('f');
        out.push('f');
        out.push('f');
        out.push(':');
        let ghost o1 = out@;
        let mut v: Vec<u8> = Vec::new();
        v.push((g[6] / 256) as u8);
        v.push((g[6] % 256) as u8);
        v.push((g[7] / 256) as u8);
        v.push((g[7] % 256) as u8);
        push_ipv4(out, v.as_slice());
        assert(v@ =~= seq![
            (g@[6] / 256) as u8,
            (g@[6] % 256) as u8,
            (g@[7] / 256) as u8,
            (g@[7] % 256) as u8,
        ]);
        assert(out@ =~= o0 + ipv6_text(g@));
    } else {
        let (s, l) = longest_zero_run_of(g);
        proof {
            let (zs, zl) = zero_span(g@);
            assert(longest_zero_run(g@, 8, zs, zl));
            lemma_longest_zero_run_unique(g@, 8, s as int, l as int, zs, zl);
        }
        if l > 1 {
            push_groups(out, g, 0, s);
            out.push(':');
            out.push(':');
            push_groups(out, g, s + l, 8);
            assert(out@ =~= o0 + ipv6_text(g@));
        } else {
            push_groups(out, g, 0, 8);
            assert(g@.subrange(0, 8) =~= g@);
        }
    }
}

impl SocketAddress {
    /// Whether the address has four octets or eight segments.
    pub open spec fn wf(&self) -> bool {
        addr_wf(self@)
    }

    /// The address as the standard library writes a socket address.
    pub fn to_string(&self) -> (s: String)
        requires
            self.wf(),
        ensures
            s@ == socket_text(self@),
    {
        let mut out: Vec<char> = Vec::new();
        match self {
            SocketAddress::V4 { octets, port } => {
                push_ipv4(&mut out, octets.as_slice());
                out.push(':');
                push_decimal(&mut out, *port as u64);
                assert(out@ =~= socket_text(self@));
            },
            SocketAddress::V6 { segments, port, scope_id } => {
                out.push('[');
                push_ipv6(&mut out, segments.as_slice());
                let ghost mid = out@;
                if *scope_id != 0 {
                    out.push('%');
                    push_decimal(&mut out, *scope_id as u64);
                }
                out.push(']');
                out.push(':');
                push_decimal(&mut out, *port as u64);
                assert(out@ =~= socket_text(self@));
            },
        }
        string_of(out.as_slice())
    }
}


/// The port of a socket address.
pub open spec fn addr_port(a: SpecSocketAddr) -> u16 {
    match a {
        SpecSocketAddr::V4 { port, .. } => port,
        SpecSocketAddr::V6 { port, .. } => port,
    }
}

proof fn lemma_digit_char_value(k: nat)
    requires
        k < 10,
    ensures
        digit_value(digit_char(k), 10) == Some(k),
{
    assert(('0' as nat) == 48);
    assert((digit_char(k) as nat) == k + 48);
}

/// The decimal digits of `n` are digits that read back as `n`.
pub proof fn lemma_decimal_value(n: nat)
    ensures
        decimal(n).len() > 0,
        forall|i: int| 0 <= i < decimal(n).len() ==> #[trigger] digit_value(decimal(n)[i], 10) is Some,
        digits_value(decimal(n), 10) == n,
    decreases n,
{
    if n < 10 {
        lemma_digit_char_value(n);
        assert(decimal(n) =~= seq![digit_char(n)]);
        assert(decimal(n).drop_last() =~= Seq::<char>::empty());
        assert(digits_value(decimal(n).drop_last(), 10) == 0);
        assert(digits_value(decimal(n), 10) == 0 * 10 + n);
    } else {
        lemma_decimal_value(n / 10);
        lemma_digit_char_value(n % 10);
        let d = decimal(n);
        assert(d.drop_last() =~= decimal(n / 10));
        assert(d.last() == digit_char(n % 10));
        assert(digits_value(d, 10) == digits_value(decimal(n / 10), 10) * 10 + n % 10);
        assert((n / 10) * 10 + n % 10 == n) by (nonlinear_arith);
        assert forall|i: int| 0 <= i < d.len() implies #[trigger] digit_value(d[i], 10) is Some by {
            if i < d.len() - 1 {
                assert(d[i] == decimal(n / 10)[i]);
            }
        }
    }
}

proof fn lemma_run_len_digits(s: Seq<char>, pos: int, radix: nat)
    requires
        0 <= pos,
    ensures
        pos + run_len(s, pos, radix) <= s.len() || run_len(s, pos, radix) == 0,
        forall|k: int|
            pos <= k < pos + run_len(s, pos, radix) ==> #[trigger] digit_value(s[k], radix) is Some,
    decreases s.len() - pos,
{
    if 0 <= pos < s.len() && digit_value(s[pos], radix) is Some {
        lemma_run_len_digits(s, pos + 1, radix);
    }
}

/// A port read at `q` that reaches the end of `t = x + ":" + digits` is
/// read from the last colon: the digits are the port's.
proof fn lemma_port_at_end(x: Seq<char>, d: Seq<char>, q: int)
    requires
        forall|i: int| 0 <= i < d.len() ==> #[trigger] digit_value(d[i], 10) is Some,
        ({
            let t = x + seq![':'] + d;
            &&& 0 <= q < t.len()
            &&& t[q] == ':'
            &&& q + 1 + run_len(t, q + 1, 10) == t.len()
        }),
    ensures
        q == x.len(),
{
    let t = x + seq![':'] + d;
    let c = x.len() as int;
    lemma_run_len_digits(t, q + 1, 10);
    if q < c {
        assert(digit_value(t[c], 10) is Some);
    } else if q > c {
        assert(t[q] == d[q - c - 1]);
    }
}

/// The port read at `q + 1` of `x + ":" + decimal(p)`, when `q` is the
/// colon, is `p`.
proof fn lemma_port_value(x: Seq<char>, p: u16, q: int)
    requires
        ({
            let t = x + seq![':'] + decimal(p as nat);
            &&& 0 <= q < t.len()
            &&& t[q] == ':'
            &&& read_number(t, q + 1, 10, None, true, 65535) matches Some((v, e)) && e == t.len()
        }),
    ensures
        ({
            let t = x + seq![':'] + decimal(p as nat);
            read_number(t, q + 1, 10, None, true, 65535) matches Some((v, e)) && v == p
        }),
{
    let d = decimal(p as nat);
    let t = x + seq![':'] + d;
    lemma_decimal_value(p as nat);
    lemma_port_at_end(x, d, q);
    let n = run_len(t, q + 1, 10);
    assert(t.subrange(q + 1, q + 1 + n) =~= d);
}

/// Of a text that ends with a colon and the decimal digits of `p`, any
/// socket address read from the whole of it has port `p`.
pub proof fn lemma_trailing_port(x: Seq<char>, p: u16)
    requires
        socket_addr_of(x + seq![':'] + decimal(p as nat)) is Some,
    ensures
        addr_port(socket_addr_of(x + seq![':'] + decimal(p as nat)).unwrap()) == p,
{
    reveal(socket_addr_of);
    let t = x + seq![':'] + decimal(p as nat);
    match read_socket_v4(t) {
        Some((a, e)) => {
            let (o, p1) = read_ipv4(t, 0).unwrap();
            lemma_port_value(x, p, p1);
        },
        None => {
            let (g, p1) = read_ipv6(t, 1).unwrap();
            let (scope, p2) = read_scope(t, p1);
            lemma_port_value(x, p, p2 + 1);
        },
    }
}


/// The number of decimal digits of small numbers.
proof fn lemma_decimal_len(n: nat)
    ensures
        decimal(n).len() >= 1,
        n < 10 <==> decimal(n).len() == 1,
        n < 100 ==> decimal(n).len() <= 2,
        n < 1000 ==> decimal(n).len() <= 3,
    decreases n,
{
    if n >= 10 {
        lemma_decimal_len(n / 10);
    }
}

/// Decimal digits start with `0` only when they are the single digit of 0.
proof fn lemma_decimal_lead(n: nat)
    ensures
        decimal(n).len() > 1 ==> decimal(n)[0] != '0',
    decreases n,
{
    lemma_decimal_len(n);
    if n >= 10 {
        lemma_decimal_lead(n / 10);
        lemma_decimal_len(n / 10);
        assert(decimal(n)[0] == decimal(n / 10)[0]);
        if n / 10 < 10 {
            let k = n / 10;
            assert(k >= 1);
            lemma_digit_char_value(k);
            assert(decimal(k) == seq![digit_char(k)]);
            assert(decimal(k)[0] == digit_char(k));
            assert(digit_value('0', 10) == Some(0nat));
            assert(digit_char(k) != '0');
        }
    }
}

/// The digits run that starts at `pos` and ends before a non-digit (or the
/// end) is `len` long.
proof fn lemma_run_len_exact(t: Seq<char>, pos: int, len: int)
    requires
        0 <= pos,
        0 <= len,
        pos + len <= t.len(),
        forall|k: int| pos <= k < pos + len ==> #[trigger] digit_value(t[k], 10) is Some,
        pos + len == t.len() || digit_value(t[pos + len], 10) is None,
    ensures
        run_len(t, pos, 10) == len,
    decreases len,
{
    if len > 0 {
        assert(digit_value(t[pos], 10) is Some);
        lemma_run_len_exact(t, pos + 1, len - 1);
    }
}

/// The decimal digits of `n` at `pos`, followed by a non-digit or the end,
/// read back as `n`.
#[verifier::spinoff_prover]
proof fn lemma_read_decimal(
    t: Seq<char>,
    pos: int,
    n: nat,
    max_digits: Option<nat>,
    allow_zero_prefix: bool,
    bound: nat,
)
    requires
        0 <= pos,
        pos + decimal(n).len() <= t.len(),
        t.subrange(pos, pos + decimal(n).len()) == decimal(n),
        pos + decimal(n).len() == t.len() || digit_value(t[pos + decimal(n).len()], 10) is None,
        n <= bound,
        max_digits matches Some(m) ==> decimal(n).len() <= m,
    ensures
        read_number(t, pos, 10, max_digits, allow_zero_prefix, bound) == Some(
            (n, pos + decimal(n).len()),
        ),
{
    let d = decimal(n);
    lemma_decimal_value(n);
    lemma_decimal_lead(n);
    assert forall|k: int| pos <= k < pos + d.len() implies #[trigger] digit_value(t[k], 10) is Some by {
        assert(t[k] == t.subrange(pos, pos + d.len())[k - pos]);
        assert(digit_value(d[k - pos], 10) is Some);
    }
    lemma_run_len_exact(t, pos, d.len() as int);
    assert(t[pos] == d[0]);
}

/// An octet in decimal at the end of `x`, before a non-digit or the end,
/// reads back as itself.
#[verifier::spinoff_prover]
proof fn lemma_octet_after(x: Seq<char>, n: u8, y: Seq<char>)
    requires
        y.len() == 0 || digit_value(y[0], 10) is None,
    ensures
        read_octet(x + decimal(n as nat) + y, x.len() as int) == Some(
            (n as nat, (x.len() + decimal(n as nat).len()) as int),
        ),
{
    let d = decimal(n as nat);
    let t = x + d + y;
    lemma_decimal_len(n as nat);
    assert(t.subrange(x.len() as int, (x.len() + d.len()) as int) =~= d);
    if y.len() > 0 {
        assert(t[(x.len() + d.len()) as int] == y[0]);
    }
    lemma_read_decimal(t, x.len() as int, n as nat, Some(3), false, 255);
}

/// A dot and an octet in decimal after `x`, before a non-digit or the end,
/// read back as that octet.
#[verifier::spinoff_prover]
proof fn lemma_dot_octet_after(x: Seq<char>, n: u8, y: Seq<char>)
    requires
        y.len() == 0 || digit_value(y[0], 10) is None,
    ensures
        read_dot_octet(x + seq!['.'] + decimal(n as nat) + y, x.len() as int) == Some(
            (n as nat, (x.len() + 1 + decimal(n as nat).len()) as int),
        ),
{
    let x1 = x + seq!['.'];
    assert(x + seq!['.'] + decimal(n as nat) + y == x1 + decimal(n as nat) + y);
    lemma_octet_after(x1, n, y);
    assert((x1 + decimal(n as nat) + y)[x.len() as int] == '.');
}

/// Four octets read in turn, separated by dots, are an IPv4 address.
proof fn lemma_ipv4_from_octets(t: Seq<char>, o: Seq<u8>, p1: int, p2: int, p3: int, p4: int)
    requires
        o.len() == 4,
        read_octet(t, 0) == Some((o[0] as nat, p1)),
        read_dot_octet(t, p1) == Some((o[1] as nat, p2)),
        read_dot_octet(t, p2) == Some((o[2] as nat, p3)),
        read_dot_octet(t, p3) == Some((o[3] as nat, p4)),
    ensures
        read_ipv4(t, 0) == Some((o, p4)),
{
    assert(seq![o[0] as nat as u8, o[1] as nat as u8, o[2] as nat as u8, o[3] as nat as u8] =~= o);
}

/// The dotted decimal text of four octets followed by `rest`, cut after
/// each octet.
proof fn lemma_ipv4_text_cuts(o: Seq<u8>, rest: Seq<char>)
    requires
        o.len() == 4,
    ensures
        ({
            let da = decimal(o[0] as nat);
            let db = decimal(o[1] as nat);
            let dc = decimal(o[2] as nat);
            let dd = decimal(o[3] as nat);
            let t = ipv4_text(o) + rest;
            let x2 = da + seq!['.'] + db;
            let x3 = x2 + seq!['.'] + dc;
            &&& t == Seq::<char>::empty() + da + (seq!['.'] + db + seq!['.'] + dc + seq!['.'] + dd
                + rest)
            &&& t == da + seq!['.'] + db + (seq!['.'] + dc + seq!['.'] + dd + rest)
            &&& t == x2 + seq!['.'] + dc + (seq!['.'] + dd + rest)
            &&& t == x3 + seq!['.'] + dd + rest
        }),
{
    let da = decimal(o[0] as nat);
    let db = decimal(o[1] as nat);
    let dc = decimal(o[2] as nat);
    let dd = decimal(o[3] as nat);
    let t = ipv4_text(o) + rest;
    let x2 = da + seq!['.'] + db;
    let x3 = x2 + seq!['.'] + dc;
    assert(t =~= Seq::<char>::empty() + da + (seq!['.'] + db + seq!['.'] + dc + seq!['.'] + dd
        + rest));
    assert(t =~= da + seq!['.'] + db + (seq!['.'] + dc + seq!['.'] + dd + rest));
    assert(t =~= x2 + seq!['.'] + dc + (seq!['.'] + dd + rest));
    assert(t =~= x3 + seq!['.'] + dd + rest);
}

/// The dotted decimal text of four octets, before a non-digit, reads back as
/// those octets.
#[verifier::spinoff_prover]
proof fn lemma_ipv4_text_reads(o: Seq<u8>, rest: Seq<char>)
    requires
        o.len() == 4,
        rest.len() == 0 || digit_value(rest[0], 10) is None,
    ensures
        read_ipv4(ipv4_text(o) + rest, 0) == Some((o, ipv4_text(o).len() as int)),
{
    let da = decimal(o[0] as nat);
    let db = decimal(o[1] as nat);
    let dc = decimal(o[2] as nat);
    let dd = decimal(o[3] as nat);
    let t = ipv4_text(o) + rest;
    let x2 = da + seq!['.'] + db;
    let x3 = x2 + seq!['.'] + dc;
    let y0 = seq!['.'] + db + seq!['.'] + dc + seq!['.'] + dd + rest;
    let y1 = seq!['.'] + dc + seq!['.'] + dd + rest;
    let y2 = seq!['.'] + dd + rest;
    lemma_ipv4_text_cuts(o, rest);
    lemma_octet_after(Seq::<char>::empty(), o[0], y0);
    lemma_dot_octet_after(da, o[1], y1);
    lemma_dot_octet_after(x2, o[2], y2);
    lemma_dot_octet_after(x3, o[3], rest);
    lemma_ipv4_from_octets(
        t,
        o,
        da.len() as int,
        x2.len() as int,
        x3.len() as int,
        (x3.len() + 1 + dd.len()) as int,
    );
}

/// Every IPv4 socket address reads back from the text the standard library
/// writes for it: `a.b.c.d:p`, with each octet and the port in decimal
/// without leading zeros, is the address with octets `a, b, c, d` and
/// port `p`, for all octets up to 255 and all ports.
#[verifier::spinoff_prover]
pub proof fn lemma_ipv4_text_round_trip(o: Seq<u8>, p: u16)
    requires
        o.len() == 4,
    ensures
        socket_addr_of(socket_text(SpecSocketAddr::V4 { octets: o, port: p })) == Some(
            SpecSocketAddr::V4 { octets: o, port: p },
        ),
{
    reveal(socket_addr_of);
    let x = ipv4_text(o);
    let dp = decimal(p as nat);
    let rest = seq![':'] + dp;
    let t = x + rest;
    assert(t =~= socket_text(SpecSocketAddr::V4 { octets: o, port: p }));
    lemma_ipv4_text_reads(o, rest);
    let q = x.len() as int;
    assert(t[q] == ':');
    lemma_decimal_len(p as nat);
    assert(t.subrange(q + 1, t.len() as int) =~= dp);
    lemma_read_decimal(t, q + 1, p as nat, None, true, 65535);
    assert(read_port(t, q) == Some((p as nat, t.len() as int)));
    assert(read_socket_v4(t) == Some((SpecSocketAddr::V4 { octets: o, port: p }, t.len() as int)));
}

} // verus!
