//! Text shown by the terminal dashboard.

use vstd::prelude::*;

use crate::text::{digit_char, string_of};

verus! {

/// A number below 100 in two decimal digits, as `{:02}` writes it.
pub open spec fn two_digits(n: nat) -> Seq<char> {
    seq![digit_char(n / 10), digit_char(n % 10)]
}

/// The seconds a log timestamp stands for: the timestamp reinterpreted as
/// an unsigned 64-bit number, as `as u64` does.
pub open spec fn unsigned_secs(ts: i64) -> nat {
    if ts >= 0 {
        ts as nat
    } else {
        (ts + 0x1_0000_0000_0000_0000int) as nat
    }
}

/// The time of day, in UTC, of a number of seconds since the epoch, as
/// `hh:mm:ss`.
pub open spec fn clock_text(secs: nat) -> Seq<char> {
    two_digits((secs / 3600) % 24) + seq![':'] + two_digits((secs / 60) % 60) + seq![':']
        + two_digits(secs % 60)
}

fn push_two_digits(out: &mut Vec<char>, n: u64)
    requires
        n < 100,
    ensures
        final(out)@ == old(out)@ + two_digits(n as nat),
{
    let hi: u8 = (n / 10) as u8 + 48;
    let lo: u8 = (n % 10) as u8 + 48;
    out.push(hi as char);
    out.push(lo as char);
    assert(final(out)@ =~= old(out)@ + two_digits(n as nat));
}

/// The time of day of a log timestamp, as `hh:mm:ss`.
pub fn timestamp_str(ts: i64) -> (s: String)
    ensures
        s@ == clock_text(unsigned_secs(ts)),
{
    let secs: u64 = if ts >= 0 {
        ts as u64
    } else {
        ((ts + 9223372036854775807) + 1) as u64 + 9223372036854775808u64
    };
    assert(secs == unsigned_secs(ts));
    let h = (secs / 3600) % 24;
    let m = (secs / 60) % 60;
    let sec = secs % 60;
    let mut out: Vec<char> = Vec::new();
    push_two_digits(&mut out, h);
    out.push(':');
    push_two_digits(&mut out, m);
    out.push(':');
    push_two_digits(&mut out, sec);
    assert(out@ =~= clock_text(secs as nat));
    string_of(out.as_slice())
}

} // verus!
