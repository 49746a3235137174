//! Arbitrary-length integer rendering: a big-endian two's complement byte
//! string of any width becomes its decimal digits, by in-place negation
//! and repeated division of the byte buffer by ten. This is what variant-
//! length integer and decimal columns are rendered with.
use vstd::prelude::*;
use vstd::arithmetic::div_mod::lemma_fundamental_div_mod;
use vstd::arithmetic::div_mod::lemma_fundamental_div_mod_converse;
use vstd::arithmetic::div_mod::lemma_div_denominator;
use crate::codec::be_val;
use crate::codec::twos_comp;
use crate::codec::pow256;
use crate::codec::dec_str;
use crate::codec::dec_pad;
use crate::codec::digit_char;
use crate::codec::push_digit;
use crate::codec::int_str;
use crate::codec::lemma_pow256_mono;
use crate::codec::lemma_twos_comp_negative;
use crate::render::pow10;
use crate::render::lemma_pow10_mono;
use crate::render::lemma_dec_pad_split;
use crate::render::push_zeros;
use crate::render::decimal_str;
use vstd::string::StringExecFns;

verus! {

/// Ten to the `a` times ten to the `b`.
pub proof fn lemma_pow10_add(a: nat, b: nat)
    ensures
        pow10(a) * pow10(b) == pow10((a + b) as nat),
    decreases b,
{
    if b == 0 {
        assert(pow10(a) * 1 == pow10(a)) by (nonlinear_arith);
    } else {
        lemma_pow10_add(a, (b - 1) as nat);
        assert(pow10(a) * (10 * pow10((b - 1) as nat)) == 10 * (pow10(a) * pow10(
            (b - 1) as nat,
        ))) by (nonlinear_arith);
    }
}

/// Dividing by two powers of ten in turn divides by their product.
pub proof fn lemma_div_pow10(m: nat, a: nat, b: nat)
    ensures
        m / pow10(a) / pow10(b) == m / pow10((a + b) as nat),
{
    lemma_pow10_mono(0, a);
    lemma_pow10_mono(0, b);
    lemma_pow10_add(a, b);
    lemma_div_denominator(m as int, pow10(a) as int, pow10(b) as int);
}

pub proof fn lemma_dec_pad_len(n: nat, w: nat)
    ensures
        dec_pad(n, w).len() == w,
    decreases w,
{
    if w > 0 {
        lemma_dec_pad_len(n / 10, (w - 1) as nat);
    }
}

/// Position `t` of a zero-padded rendering holds the digit of weight
/// `w - 1 - t`.
pub proof fn lemma_dec_pad_char(n: nat, w: nat, t: int)
    requires
        0 <= t < w,
    ensures
        dec_pad(n, w).len() == w,
        dec_pad(n, w)[t] == digit_char(((n / pow10((w - 1 - t) as nat)) % 10) as int),
    decreases w,
{
    lemma_dec_pad_len(n, w);
    lemma_dec_pad_len(n / 10, (w - 1) as nat);
    if t == w - 1 {
        assert(pow10(0) == 1);
        assert(n / 1 == n);
    } else {
        lemma_dec_pad_char(n / 10, (w - 1) as nat, t);
        lemma_div_pow10(n, 1, (w - 2 - t) as nat);
        assert(pow10(1) == 10) by {
            reveal_with_fuel(pow10, 2);
        }
    }
}

/// A value with exactly `w` digits renders the same padded or not.
pub proof fn lemma_dec_str_is_pad(n: nat, w: nat)
    requires
        w >= 1,
        n < pow10(w),
        w == 1 || n >= pow10((w - 1) as nat),
    ensures
        dec_str(n) == dec_pad(n, w),
    decreases w,
{
    if w == 1 {
        assert(pow10(1) == 10) by {
            reveal_with_fuel(pow10, 2);
        }
        assert(n % 10 == n) by (nonlinear_arith)
            requires
                n < 10,
        ;
        assert(dec_pad(n, 1) =~= dec_str(n)) by {
            reveal_with_fuel(dec_pad, 3);
            reveal_with_fuel(dec_str, 2);
        }
    } else {
        assert(pow10((w - 1) as nat) == 10 * pow10((w - 2) as nat));
        assert(pow10(w) == 10 * pow10((w - 1) as nat));
        lemma_pow10_mono(0, (w - 2) as nat);
        assert(n >= 10);
        assert(n / 10 < pow10((w - 1) as nat)) by (nonlinear_arith)
            requires
                n < 10 * pow10((w - 1) as nat),
        ;
        assert(n / 10 >= pow10((w - 2) as nat)) by (nonlinear_arith)
            requires
                n >= 10 * pow10((w - 2) as nat),
        ;
        lemma_dec_str_is_pad(n / 10, (w - 1) as nat);
    }
}

/// Divides the big-endian byte buffer by ten in place and returns the
/// remainder digit.
fn div10_in_place(buf: &mut Vec<u8>) -> (rem: u8)
    ensures
        final(buf)@.len() == old(buf)@.len(),
        be_val(final(buf)@) == be_val(old(buf)@) / 10,
        rem as nat == be_val(old(buf)@) % 10,
        rem < 10,
{
    let mut rem: u16 = 0;
    let mut i: usize = 0;
    let n = buf.len();
    proof {
        assert(old(buf)@.subrange(0, 0) =~= Seq::empty());
        assert(buf@.subrange(0, 0) =~= Seq::empty());
    }
    while i < n
        invariant
            i <= n,
            buf@.len() == n,
            old(buf)@.len() == n,
            rem < 10,
            forall|j: int| i <= j < n ==> buf@[j] == old(buf)@[j],
            be_val(old(buf)@.subrange(0, i as int)) == be_val(buf@.subrange(0, i as int)) * 10
                + rem,
        decreases n - i,
    {
        let ghost pre = buf@;
        let cur: u16 = rem * 256 + (buf[i] as u16);
        buf.set(i, (cur / 10) as u8);
        proof {
            let oldp1 = old(buf)@.subrange(0, i + 1);
            assert(oldp1.drop_last() =~= old(buf)@.subrange(0, i as int));
            assert(oldp1.last() == old(buf)@[i as int]);
            let newp1 = buf@.subrange(0, i + 1);
            assert(buf@.subrange(0, i as int) =~= pre.subrange(0, i as int));
            assert(newp1.drop_last() =~= buf@.subrange(0, i as int));
            assert(newp1.last() == cur / 10);
            let a = be_val(buf@.subrange(0, i as int)) as int;
            assert(be_val(oldp1) == (a * 10 + rem) * 256 + pre[i as int]);
            assert(cur == rem * 256 + pre[i as int]);
            assert(cur == (cur / 10) * 10 + cur % 10) by {
                lemma_fundamental_div_mod(cur as int, 10);
            }
            assert((a * 10 + rem) * 256 + pre[i as int] == (a * 256 + cur / 10) * 10 + cur
                % 10) by (nonlinear_arith)
                requires
                    cur == rem * 256 + pre[i as int],
                    cur == (cur / 10) * 10 + cur % 10,
            ;
            assert(be_val(newp1) == a * 256 + cur / 10);
        }
        rem = cur % 10;
        i = i + 1;
    }
    proof {
        assert(old(buf)@.subrange(0, n as int) =~= old(buf)@);
        assert(buf@.subrange(0, n as int) =~= buf@);
        lemma_fundamental_div_mod_converse(
            be_val(old(buf)@) as int,
            10,
            be_val(buf@) as int,
            rem as int,
        );
    }
    rem as u8
}

/// True exactly when the buffer holds the value zero.
fn bytes_all_zero(buf: &Vec<u8>) -> (r: bool)
    ensures
        r == (be_val(buf@) == 0),
{
    let mut i: usize = 0;
    while i < buf.len()
        invariant
            i <= buf@.len(),
            forall|j: int| 0 <= j < i ==> buf@[j] == 0,
        decreases buf@.len() - i,
    {
        if buf[i] != 0 {
            proof {
                lemma_be_val_zero(buf@);
            }
            return false;
        }
        i = i + 1;
    }
    proof {
        lemma_be_val_zero(buf@);
    }
    true
}

proof fn lemma_be_val_zero(s: Seq<u8>)
    ensures
        (be_val(s) == 0) <==> (forall|j: int| 0 <= j < s.len() ==> s[j] == 0),
    decreases s.len(),
{
    if s.len() > 0 {
        lemma_be_val_zero(s.drop_last());
        if be_val(s) == 0 {
            assert forall|j: int| 0 <= j < s.len() implies s[j] == 0 by {
                if j < s.len() - 1 {
                    assert(s.drop_last()[j] == s[j]);
                }
            }
        }
        if forall|j: int| 0 <= j < s.len() ==> s[j] == 0 {
            assert forall|j: int| 0 <= j < s.drop_last().len() implies s.drop_last()[j] == 0 by {
                assert(s.drop_last()[j] == s[j]);
            }
        }
    }
}

/// Replaces every byte by its complement: the value becomes the buffer's
/// maximum minus the old value.
fn complement_in_place(buf: &mut Vec<u8>)
    ensures
        final(buf)@.len() == old(buf)@.len(),
        be_val(final(buf)@) == pow256(old(buf)@.len()) - 1 - be_val(old(buf)@),
    decreases old(buf)@.len(),
{
    let last = buf.pop();
    match last {
        None => {
            proof {
                assert(old(buf)@.len() == 0);
                assert(buf@ =~= old(buf)@);
                assert(be_val(old(buf)@) == 0);
                assert(pow256(0) == 1);
            }
        },
        Some(b) => {
            let ghost prefix = old(buf)@.subrange(0, old(buf)@.len() - 1);
            complement_in_place(buf);
            let ghost rec = buf@;
            buf.push(255 - b);
            proof {
                assert(buf@.drop_last() =~= rec);
                assert(be_val(buf@) == be_val(rec) * 256 + (255 - b));
                assert(old(buf)@.drop_last() =~= prefix);
                assert(be_val(old(buf)@) == be_val(prefix) * 256 + b);
                assert(pow256(old(buf)@.len()) == 256 * pow256(prefix.len()));
            }
        },
    }
}

/// Adds one to the buffer's value; reports the carry out of the top byte,
/// which only an all-ones buffer produces.
fn increment_in_place(buf: &mut Vec<u8>) -> (carry: bool)
    ensures
        final(buf)@.len() == old(buf)@.len(),
        !carry ==> be_val(final(buf)@) == be_val(old(buf)@) + 1,
        carry ==> be_val(old(buf)@) + 1 == pow256(old(buf)@.len()),
    decreases old(buf)@.len(),
{
    let last = buf.pop();
    match last {
        None => {
            proof {
                assert(old(buf)@.len() == 0);
                assert(be_val(old(buf)@) == 0);
                assert(pow256(0) == 1);
            }
            true
        },
        Some(b) => {
            let ghost prefix = old(buf)@.subrange(0, old(buf)@.len() - 1);
            proof {
                assert(old(buf)@.drop_last() =~= prefix);
                assert(be_val(old(buf)@) == be_val(prefix) * 256 + b);
            }
            if b == 255 {
                let carry = increment_in_place(buf);
                let ghost rec = buf@;
                buf.push(0);
                proof {
                    assert(buf@.drop_last() =~= rec);
                    assert(be_val(buf@) == be_val(rec) * 256 + 0);
                    assert(pow256(old(buf)@.len()) == 256 * pow256(prefix.len()));
                }
                carry
            } else {
                let ghost rec = buf@;
                buf.push(b + 1);
                proof {
                    assert(buf@.drop_last() =~= rec);
                    assert(be_val(buf@) == be_val(rec) * 256 + (b + 1));
                    assert(rec =~= prefix);
                }
                false
            }
        },
    }
}

/// Copies the two's complement tail `b[start ..]` and splits it into its
/// sign and the big-endian bytes of its magnitude.
pub fn signed_magnitude(b: &Vec<u8>, start: usize) -> (r: (Vec<u8>, bool))
    requires
        start < b@.len(),
    ensures
        ({
            let v = twos_comp(b@.subrange(start as int, b@.len() as int));
            r.1 == (v < 0) && be_val(r.0@) as int == (if v < 0 {
                -v
            } else {
                v
            })
        }),
{
    let ghost tail = b@.subrange(start as int, b@.len() as int);
    let mut buf: Vec<u8> = Vec::new();
    let mut i: usize = start;
    while i < b.len()
        invariant
            start <= i <= b@.len(),
            buf@ =~= b@.subrange(start as int, i as int),
        decreases b@.len() - i,
    {
        buf.push(b[i]);
        i = i + 1;
    }
    proof {
        assert(buf@ =~= tail);
        lemma_twos_comp_negative(tail);
    }
    let negative = buf[0] >= 128;
    if negative {
        complement_in_place(&mut buf);
        let carry = increment_in_place(&mut buf);
        proof {
            if carry {
                lemma_pow256_mono(0, (tail.len() - 1) as nat);
                assert(false);
            }
        }
    }
    (buf, negative)
}

/// Extracts the decimal digits of the buffer's value, least significant
/// first: digit `t` is the value's digit of weight ten to the `t`.
pub fn magnitude_digits(buf: Vec<u8>) -> (digits: Vec<u8>)
    ensures
        digits@.len() >= 1,
        forall|t: int|
            0 <= t < digits@.len() ==> #[trigger] digits@[t] as nat == (be_val(buf@) / pow10(
                t as nat,
            )) % 10,
        be_val(buf@) < pow10(digits@.len() as nat),
        digits@.len() == 1 || be_val(buf@) >= pow10((digits@.len() - 1) as nat),
{
    let ghost m0 = be_val(buf@);
    let mut work = buf;
    let mut digits: Vec<u8> = Vec::new();
    let mut nonzero = !bytes_all_zero(&work);
    proof {
        assert(pow10(0) == 1);
        assert(m0 / 1 == m0);
    }
    while nonzero
        invariant
            nonzero == (be_val(work@) != 0),
            be_val(work@) == m0 / pow10(digits@.len() as nat),
            forall|t: int|
                0 <= t < digits@.len() ==> #[trigger] digits@[t] as nat == (m0 / pow10(t as nat))
                    % 10,
            digits@.len() == 0 ==> be_val(work@) == m0,
            digits@.len() >= 1 ==> m0 >= pow10((digits@.len() - 1) as nat),
        decreases be_val(work@),
    {
        let ghost k = digits@.len();
        proof {
            lemma_div_pow10(m0, k as nat, 1);
            assert(pow10(1) == 10) by {
                reveal_with_fuel(pow10, 2);
            }
            assert(m0 / pow10(k as nat) >= 1);
            lemma_pow10_mono(0, k as nat);
            lemma_fundamental_div_mod(m0 as int, pow10(k as nat) as int);
            vstd::arithmetic::div_mod::lemma_mod_bound(m0 as int, pow10(k as nat) as int);
            assert(m0 >= pow10(k as nat)) by (nonlinear_arith)
                requires
                    m0 == pow10(k as nat) * (m0 / pow10(k as nat)) + m0 % pow10(k as nat),
                    m0 / pow10(k as nat) >= 1,
                    m0 % pow10(k as nat) >= 0,
                    pow10(k as nat) >= 1,
            ;
        }
        let rem = div10_in_place(&mut work);
        digits.push(rem);
        nonzero = !bytes_all_zero(&work);
    }
    proof {
        if digits@.len() == 0 {
            assert(m0 == 0);
        }
    }
    if digits.len() == 0 {
        digits.push(0);
        proof {
            assert(pow10(1) == 10) by {
                reveal_with_fuel(pow10, 2);
            }
        }
    }
    proof {
        let k = digits@.len() as nat;
        assert(m0 / pow10(k) == 0);
        lemma_pow10_mono(0, k);
        lemma_fundamental_div_mod(m0 as int, pow10(k) as int);
        vstd::arithmetic::div_mod::lemma_mod_bound(m0 as int, pow10(k) as int);
        assert(pow10(k) as int * (m0 as int / pow10(k) as int) == 0) by (nonlinear_arith)
            requires
                m0 as int / pow10(k) as int == 0,
        ;
        assert(m0 < pow10(k));
    }
    digits
}

/// Appends digits `hi - 1` down to `lo` of the value the digit vector
/// describes: exactly the zero-padded rendering of the value with its
/// lowest `lo` digits cut off.
pub fn push_digit_run(
    s: &mut String,
    digits: &Vec<u8>,
    lo: usize,
    hi: usize,
    Ghost(m): Ghost<nat>,
)
    requires
        lo <= hi <= digits@.len(),
        forall|t: int|
            0 <= t < digits@.len() ==> #[trigger] digits@[t] as nat == (m / pow10(t as nat)) % 10,
    ensures
        final(s)@ == old(s)@ + dec_pad(m / pow10(lo as nat), (hi - lo) as nat),
{
    let ghost target = dec_pad(m / pow10(lo as nat), (hi - lo) as nat);
    proof {
        lemma_dec_pad_len(m / pow10(lo as nat), (hi - lo) as nat);
        assert(s@ =~= old(s)@ + target.take(0));
    }
    let mut i: usize = hi;
    while i > lo
        invariant
            lo <= i <= hi <= digits@.len(),
            target == dec_pad(m / pow10(lo as nat), (hi - lo) as nat),
            target.len() == hi - lo,
            forall|t: int|
                0 <= t < digits@.len() ==> #[trigger] digits@[t] as nat == (m / pow10(t as nat))
                    % 10,
            s@ == old(s)@ + target.take((hi - i) as int),
        decreases i,
    {
        proof {
            let t = (hi - i) as int;
            lemma_dec_pad_char(m / pow10(lo as nat), (hi - lo) as nat, t);
            lemma_div_pow10(m, lo as nat, (hi - lo - 1 - t) as nat);
            assert(target[t] == digit_char(((m / pow10((i - 1) as nat)) % 10) as int));
            assert(digits@[i - 1] as nat == (m / pow10((i - 1) as nat)) % 10);
            assert(digits@[i - 1] < 10);
        }
        push_digit(s, digits[i - 1]);
        proof {
            assert(target.take((hi - i + 1) as int) =~= target.take((hi - i) as int).push(
                target[(hi - i) as int],
            ));
            assert(s@ =~= old(s)@ + target.take((hi - i + 1) as int));
        }
        i = i - 1;
    }
    proof {
        assert(target.take((hi - lo) as int) =~= target);
    }
}

/// Renders a big-endian two's complement integer of any length as its
/// decimal digits, with a minus sign when negative.
pub fn render_varint(b: &Vec<u8>) -> (r: String)
    requires
        b@.len() >= 1,
    ensures
        r@ == int_str(twos_comp(b@)),
{
    proof {
        assert(b@.subrange(0, b@.len() as int) =~= b@);
    }
    let ghost v = twos_comp(b@);
    let pair = signed_magnitude(b, 0);
    let mag = pair.0;
    let negative = pair.1;
    let ghost m = be_val(mag@);
    let digits = magnitude_digits(mag);
    let mut s = String::new();
    if negative {
        proof {
            reveal_strlit("-");
        }
        s.append("-");
    }
    let k: usize = digits.len();
    push_digit_run(&mut s, &digits, 0, k, Ghost(m));
    proof {
        assert(pow10(0) == 1);
        assert(m / 1 == m);
        lemma_dec_str_is_pad(m, k as nat);
        assert(s@ =~= int_str(v));
    }
    s
}

/// Renders a decimal column of any width from its byte encoding: four
/// bytes of scale, then the big-endian two's complement unscaled integer.
pub fn render_decimal_bytes(b: &Vec<u8>, scale: i64) -> (r: String)
    requires
        b@.len() >= 5,
        scale as int == twos_comp(b@.subrange(0, 4)),
    ensures
        r@ == decimal_str(twos_comp(b@.subrange(4, b@.len() as int)), scale as int),
{
    proof {
        crate::codec::lemma_be_val_bound(b@.subrange(0, 4));
        assert(pow256(4) == 0x100000000) by {
            reveal_with_fuel(pow256, 5);
        }
    }
    let ghost u = twos_comp(b@.subrange(4, b@.len() as int));
    let pair = signed_magnitude(b, 4);
    let mag = pair.0;
    let negative = pair.1;
    let ghost m = be_val(mag@);
    let digits = magnitude_digits(mag);
    let k: usize = digits.len();
    let ghost kk = k as nat;
    let mut s = String::new();
    if negative {
        proof {
            reveal_strlit("-");
        }
        s.append("-");
    }
    proof {
        assert(pow10(0) == 1);
        assert(m / 1 == m);
    }
    if scale <= 0 {
        push_digit_run(&mut s, &digits, 0, k, Ghost(m));
        push_zeros(&mut s, (-scale) as u64);
        proof {
            lemma_dec_str_is_pad(m, kk);
            assert(s@ =~= decimal_str(u, scale as int));
        }
    } else if (k as u64) <= (scale as u64) {
        proof {
            lemma_pow10_mono(kk, scale as nat);
            reveal_strlit("0");
            reveal_strlit(".");
        }
        s.append("0");
        s.append(".");
        push_zeros(&mut s, (scale as u64) - (k as u64));
        push_digit_run(&mut s, &digits, 0, k, Ghost(m));
        proof {
            lemma_dec_pad_split(m, scale as nat, kk);
            vstd::arithmetic::div_mod::lemma_basic_div(m as int, pow10(kk) as int);
            assert(m / pow10(kk) == 0);
            assert(s@ =~= decimal_str(u, scale as int));
        }
    } else {
        let sc: usize = scale as usize;
        let ghost scn = sc as nat;
        let ghost q = m / pow10(scn);
        proof {
            lemma_pow10_mono(0, scn);
            lemma_pow10_mono(0, (kk - scn) as nat);
            lemma_pow10_add(scn, (kk - scn) as nat);
            lemma_pow10_add(scn, (kk - scn - 1) as nat);
            lemma_fundamental_div_mod(m as int, pow10(scn) as int);
            vstd::arithmetic::div_mod::lemma_mod_bound(m as int, pow10(scn) as int);
            assert(q < pow10((kk - scn) as nat)) by (nonlinear_arith)
                requires
                    m == pow10(scn) * q + m % pow10(scn),
                    m % pow10(scn) >= 0,
                    m < pow10(scn) * pow10((kk - scn) as nat),
                    pow10(scn) >= 1,
            ;
            assert(m >= pow10((kk - 1) as nat));
            assert(pow10((kk - 1) as nat) == pow10(scn) * pow10((kk - scn - 1) as nat));
            assert(q >= pow10((kk - scn - 1) as nat)) by (nonlinear_arith)
                requires
                    m == pow10(scn) * q + m % pow10(scn),
                    m % pow10(scn) < pow10(scn),
                    m >= pow10(scn) * pow10((kk - scn - 1) as nat),
                    pow10(scn) >= 1,
            ;
            lemma_dec_str_is_pad(q, (kk - scn) as nat);
            assert(m < pow10(scn) * pow10((kk - scn) as nat) <== m < pow10(kk));
            reveal_strlit(".");
        }
        push_digit_run(&mut s, &digits, sc, k, Ghost(m));
        s.append(".");
        push_digit_run(&mut s, &digits, 0, sc, Ghost(m));
        proof {
            assert(m >= pow10(scn)) by {
                lemma_pow10_mono(scn, (kk - 1) as nat);
            }
            assert(s@ =~= decimal_str(u, scale as int));
        }
    }
    s
}

} // verus!
