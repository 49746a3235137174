//! Canonical text renderings of column values that the conversion hands on
//! as strings: identifiers, network addresses, dates, times of day and
//! arbitrary-precision decimals.
use vstd::prelude::*;
use vstd::string::StringExecFns;
use crate::codec::hex_char;
use crate::codec::dec_str;
use crate::codec::dec_pad;
use crate::codec::push_digit;
use crate::codec::push_hex_digit;
use crate::codec::push_hex_byte;
use crate::codec::push_dec_u64;
use crate::codec::push_dec_pad;

verus! {

/// 10 to the `n`.
pub open spec fn pow10(n: nat) -> nat
    decreases n,
{
    if n == 0 {
        1
    } else {
        10 * pow10((n - 1) as nat)
    }
}

pub proof fn lemma_pow10_mono(a: nat, b: nat)
    requires
        a <= b,
    ensures
        pow10(a) <= pow10(b),
    decreases b,
{
    if a < b {
        lemma_pow10_mono(a, (b - 1) as nat);
    }
}

/// Appends `w` zero digits.
pub fn push_zeros(s: &mut String, w: u64)
    ensures
        final(s)@ == old(s)@ + dec_pad(0, w as nat),
{
    let mut i: u64 = 0;
    proof {
        assert(s@ =~= old(s)@ + dec_pad(0, 0));
    }
    while i < w
        invariant
            i <= w,
            s@ == old(s)@ + dec_pad(0, i as nat),
        decreases w - i,
    {
        push_digit(s, 0);
        proof {
            assert(s@ =~= old(s)@ + dec_pad(0, (i + 1) as nat));
        }
        i = i + 1;
    }
}

/// Splitting a zero-padded rendering: the leading `w - k` digits come from
/// `n / pow10(k)`, the trailing `k` from `n` itself.
pub proof fn lemma_dec_pad_split(n: nat, w: nat, k: nat)
    requires
        k <= w,
    ensures
        dec_pad(n, w) == dec_pad(n / pow10(k), (w - k) as nat) + dec_pad(n, k),
    decreases k,
{
    if k == 0 {
        assert(pow10(0) == 1);
        assert(n / 1 == n);
        assert(dec_pad(n, w) =~= dec_pad(n, w) + dec_pad(n, 0));
    } else {
        lemma_dec_pad_split(n / 10, (w - 1) as nat, (k - 1) as nat);
        assert(pow10(k) == 10 * pow10((k - 1) as nat));
        assert(pow10((k - 1) as nat) >= 1) by {
            lemma_pow10_mono(0, (k - 1) as nat);
        }
        assert(n / 10 / pow10((k - 1) as nat) == n / pow10(k)) by {
            vstd::arithmetic::div_mod::lemma_div_denominator(
                n as int,
                10,
                pow10((k - 1) as nat) as int,
            );
        }
        assert(dec_pad(n, w) =~= dec_pad(n / pow10(k), (w - k) as nat) + dec_pad(n, k));
    }
}

/// The hexadecimal digits of `n`, most significant first, lower case.
pub open spec fn hex_str(n: nat) -> Seq<char>
    decreases n,
{
    if n < 16 {
        seq![hex_char(n as int)]
    } else {
        hex_str(n / 16) + seq![hex_char((n % 16) as int)]
    }
}

/// Appends the hexadecimal digits of `n`.
pub fn push_hex_u64(s: &mut String, n: u64)
    ensures
        final(s)@ == old(s)@ + hex_str(n as nat),
    decreases n,
{
    if n < 16 {
        push_hex_digit(s, n as u8);
    } else {
        push_hex_u64(s, n / 16);
        push_hex_digit(s, (n % 16) as u8);
        proof {
            assert(s@ =~= old(s)@ + hex_str(n as nat));
        }
    }
}

/// The two hexadecimal digits of one byte.
pub open spec fn hex_byte(x: u8) -> Seq<char> {
    seq![hex_char(x as int / 16), hex_char(x as int % 16)]
}

/// The canonical hyphenated form of a 16-byte identifier: lower-case
/// hexadecimal in groups of 8, 4, 4, 4 and 12 digits.
pub open spec fn uuid_str(b: Seq<u8>) -> Seq<char> {
    hex_byte(b[0]) + hex_byte(b[1]) + hex_byte(b[2]) + hex_byte(b[3]) + seq!['-'] + hex_byte(b[4])
        + hex_byte(b[5]) + seq!['-'] + hex_byte(b[6]) + hex_byte(b[7]) + seq!['-'] + hex_byte(b[8])
        + hex_byte(b[9]) + seq!['-'] + hex_byte(b[10]) + hex_byte(b[11]) + hex_byte(b[12])
        + hex_byte(b[13]) + hex_byte(b[14]) + hex_byte(b[15])
}

/// Renders a 16-byte identifier in its canonical hyphenated form.
pub fn render_uuid(b: &Vec<u8>) -> (r: String)
    requires
        b@.len() == 16,
    ensures
        r@ == uuid_str(b@),
{
    let mut s = String::new();
    proof {
        reveal_strlit("-");
    }
    push_hex_byte(&mut s, b[0]);
    push_hex_byte(&mut s, b[1]);
    push_hex_byte(&mut s, b[2]);
    push_hex_byte(&mut s, b[3]);
    s.append("-");
    push_hex_byte(&mut s, b[4]);
    push_hex_byte(&mut s, b[5]);
    s.append("-");
    push_hex_byte(&mut s, b[6]);
    push_hex_byte(&mut s, b[7]);
    s.append("-");
    push_hex_byte(&mut s, b[8]);
    push_hex_byte(&mut s, b[9]);
    s.append("-");
    push_hex_byte(&mut s, b[10]);
    push_hex_byte(&mut s, b[11]);
    push_hex_byte(&mut s, b[12]);
    push_hex_byte(&mut s, b[13]);
    push_hex_byte(&mut s, b[14]);
    push_hex_byte(&mut s, b[15]);
    proof {
        assert(s@ =~= uuid_str(b@));
    }
    s
}

/// The dotted-quad form of a 4-byte address.
pub open spec fn inet4_str(b: Seq<u8>) -> Seq<char> {
    dec_str(b[0] as nat) + seq!['.'] + dec_str(b[1] as nat) + seq!['.'] + dec_str(b[2] as nat)
        + seq!['.'] + dec_str(b[3] as nat)
}

/// The eight colon-separated hexadecimal groups of a 16-byte address,
/// lower case, without leading zeros inside a group.
pub open spec fn inet6_str(b: Seq<u8>) -> Seq<char> {
    hex_str((b[0] * 256 + b[1]) as nat) + seq![':'] + hex_str((b[2] * 256 + b[3]) as nat)
        + seq![':'] + hex_str((b[4] * 256 + b[5]) as nat) + seq![':'] + hex_str(
        (b[6] * 256 + b[7]) as nat,
    ) + seq![':'] + hex_str((b[8] * 256 + b[9]) as nat) + seq![':'] + hex_str(
        (b[10] * 256 + b[11]) as nat,
    ) + seq![':'] + hex_str((b[12] * 256 + b[13]) as nat) + seq![':'] + hex_str(
        (b[14] * 256 + b[15]) as nat,
    )
}

/// Renders a 4-byte address in dotted-quad form.
pub fn render_inet4(b: &Vec<u8>) -> (r: String)
    requires
        b@.len() == 4,
    ensures
        r@ == inet4_str(b@),
{
    let mut s = String::new();
    proof {
        reveal_strlit(".");
    }
    push_dec_u64(&mut s, b[0] as u64);
    s.append(".");
    push_dec_u64(&mut s, b[1] as u64);
    s.append(".");
    push_dec_u64(&mut s, b[2] as u64);
    s.append(".");
    push_dec_u64(&mut s, b[3] as u64);
    proof {
        assert(s@ =~= inet4_str(b@));
    }
    s
}

/// Renders a 16-byte address as eight hexadecimal groups.
pub fn render_inet6(b: &Vec<u8>) -> (r: String)
    requires
        b@.len() == 16,
    ensures
        r@ == inet6_str(b@),
{
    let mut s = String::new();
    proof {
        reveal_strlit(":");
    }
    push_hex_u64(&mut s, (b[0] as u64) * 256 + (b[1] as u64));
    s.append(":");
    push_hex_u64(&mut s, (b[2] as u64) * 256 + (b[3] as u64));
    s.append(":");
    push_hex_u64(&mut s, (b[4] as u64) * 256 + (b[5] as u64));
    s.append(":");
    push_hex_u64(&mut s, (b[6] as u64) * 256 + (b[7] as u64));
    s.append(":");
    push_hex_u64(&mut s, (b[8] as u64) * 256 + (b[9] as u64));
    s.append(":");
    push_hex_u64(&mut s, (b[10] as u64) * 256 + (b[11] as u64));
    s.append(":");
    push_hex_u64(&mut s, (b[12] as u64) * 256 + (b[13] as u64));
    s.append(":");
    push_hex_u64(&mut s, (b[14] as u64) * 256 + (b[15] as u64));
    proof {
        assert(s@ =~= inet6_str(b@));
    }
    s
}

/// One day of nanoseconds.
pub const NANOS_PER_DAY: u64 = 86400000000000;

/// A time of day, nanoseconds since midnight, as `HH:MM:SS.nnnnnnnnn`.
pub open spec fn time_str(ns: nat) -> Seq<char> {
    dec_pad(ns / 3600000000000, 2) + seq![':'] + dec_pad((ns / 60000000000) % 60, 2) + seq![':']
        + dec_pad((ns / 1000000000) % 60, 2) + seq!['.'] + dec_pad(ns % 1000000000, 9)
}

/// Renders a time of day.
pub fn render_time(ns: u64) -> (r: String)
    requires
        ns < NANOS_PER_DAY,
    ensures
        r@ == time_str(ns as nat),
{
    let mut s = String::new();
    proof {
        reveal_strlit(":");
        reveal_strlit(".");
    }
    push_dec_pad(&mut s, ns / 3600000000000, 2);
    s.append(":");
    push_dec_pad(&mut s, (ns / 60000000000) % 60, 2);
    s.append(":");
    push_dec_pad(&mut s, (ns / 1000000000) % 60, 2);
    s.append(".");
    push_dec_pad(&mut s, ns % 1000000000, 9);
    proof {
        assert(s@ =~= time_str(ns as nat));
    }
    s
}

/// A year, zero padded to four digits inside the common range.
pub open spec fn year_str(y: int) -> Seq<char> {
    if y < 0 {
        seq!['-'] + dec_str((-y) as nat)
    } else if y < 10000 {
        dec_pad(y as nat, 4)
    } else {
        dec_str(y as nat)
    }
}

/// The calendar date of a raw 4-byte day count (the epoch sits at the
/// centre of the unsigned range), as `yyyy-mm-dd`. The computation is the
/// era-based civil-from-days algorithm, shifted so that every intermediate
/// value stays non-negative; the two guarded subtractions never clamp for
/// a day count that the algorithm reaches, they only keep the rendering
/// total.
pub open spec fn date_str(u: nat) -> Seq<char> {
    let zz = u + 861720;
    let era = zz / 146097;
    let doe = zz % 146097;
    let yoe = (doe - doe / 1460 + doe / 36524 - doe / 146096) / 365;
    let ydays = 365 * yoe + yoe / 4 - yoe / 100;
    let doy = if ydays <= doe {
        doe - ydays
    } else {
        0
    };
    let mp = (5 * doy + 2) / 153;
    let mdays = (153 * mp + 2) / 5;
    let d = if mdays <= doy {
        doy - mdays + 1
    } else {
        1
    };
    let m = if mp < 10 {
        mp + 3
    } else {
        mp - 9
    };
    let y = 400 * era + yoe - 5880000 + (if m <= 2 {
        1int
    } else {
        0int
    });
    year_str(y) + seq!['-'] + dec_pad(m as nat, 2) + seq!['-'] + dec_pad(d as nat, 2)
}

/// Renders the calendar date of a raw 4-byte day count.
pub fn render_date(u: u32) -> (r: String)
    ensures
        r@ == date_str(u as nat),
{
    let zz: u64 = (u as u64) + 861720;
    let era: u64 = zz / 146097;
    let doe: u64 = zz % 146097;
    let yoe: u64 = (doe - doe / 1460 + doe / 36524 - doe / 146096) / 365;
    let ydays: u64 = 365 * yoe + yoe / 4 - yoe / 100;
    let doy: u64 = if ydays <= doe {
        doe - ydays
    } else {
        0
    };
    let mp: u64 = (5 * doy + 2) / 153;
    let mdays: u64 = (153 * mp + 2) / 5;
    let d: u64 = if mdays <= doy {
        doy - mdays + 1
    } else {
        1
    };
    let m: u64 = if mp < 10 {
        mp + 3
    } else {
        mp - 9
    };
    let y: i64 = 400 * (era as i64) + (yoe as i64) - 5880000 + (if m <= 2 {
        1
    } else {
        0
    });
    let mut s = String::new();
    proof {
        reveal_strlit("-");
    }
    if y < 0 {
        s.append("-");
        push_dec_u64(&mut s, (-y) as u64);
    } else if y < 10000 {
        push_dec_pad(&mut s, y as u64, 4);
    } else {
        push_dec_u64(&mut s, y as u64);
    }
    s.append("-");
    push_dec_pad(&mut s, m, 2);
    s.append("-");
    push_dec_pad(&mut s, d, 2);
    proof {
        assert(s@ =~= date_str(u as nat));
    }
    s
}

/// The textual numeric form of a decimal: an unscaled integer with the
/// decimal point shifted `scale` digits to the left (zero padded when the
/// point moves past the digits; trailing zeros appended when the scale is
/// negative).
pub open spec fn decimal_str(unscaled: int, scale: int) -> Seq<char> {
    let mag = if unscaled < 0 {
        (-unscaled) as nat
    } else {
        unscaled as nat
    };
    let sign: Seq<char> = if unscaled < 0 {
        seq!['-']
    } else {
        Seq::empty()
    };
    if scale <= 0 {
        sign + dec_str(mag) + dec_pad(0, (-scale) as nat)
    } else if mag < pow10(scale as nat) {
        sign + seq!['0', '.'] + dec_pad(mag, scale as nat)
    } else {
        sign + dec_str(mag / pow10(scale as nat)) + seq!['.'] + dec_pad(mag, scale as nat)
    }
}

} // verus!
