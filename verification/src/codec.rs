//! Byte-level decoding helpers: big-endian integers, two's complement,
//! decimal and hexadecimal text rendering, and widening of a single-precision
//! IEEE-754 bit pattern to the double-precision one.
use vstd::prelude::*;
use vstd::string::StringExecFns;
use vstd::arithmetic::power2::pow2;
use vstd::arithmetic::power2::lemma2_to64;

verus! {

/// 256 to the `n`.
pub open spec fn pow256(n: nat) -> nat
    decreases n,
{
    if n == 0 {
        1
    } else {
        256 * pow256((n - 1) as nat)
    }
}

/// The unsigned value of big-endian bytes.
pub open spec fn be_val(s: Seq<u8>) -> nat
    decreases s.len(),
{
    if s.len() == 0 {
        0
    } else {
        (be_val(s.drop_last()) * 256 + s.last()) as nat
    }
}

/// The signed (two's complement) value of big-endian bytes.
pub open spec fn twos_comp(s: Seq<u8>) -> int {
    if 2 * be_val(s) < pow256(s.len()) {
        be_val(s) as int
    } else {
        be_val(s) - pow256(s.len())
    }
}

pub proof fn lemma_pow256_mono(a: nat, b: nat)
    requires
        a <= b,
    ensures
        pow256(a) <= pow256(b),
    decreases b,
{
    if a < b {
        lemma_pow256_mono(a, (b - 1) as nat);
    }
}

pub proof fn lemma_be_val_bound(s: Seq<u8>)
    ensures
        be_val(s) < pow256(s.len()),
    decreases s.len(),
{
    if s.len() > 0 {
        lemma_be_val_bound(s.drop_last());
    }
}

/// Reads the unsigned big-endian value of `v[start .. end]`.
pub fn be_range_u64(v: &Vec<u8>, start: usize, end: usize) -> (r: u64)
    requires
        start <= end <= v@.len(),
        end - start <= 8,
    ensures
        r == be_val(v@.subrange(start as int, end as int)),
{
    proof {
        assert(pow256(8) == 0x10000000000000000) by {
            reveal_with_fuel(pow256, 9);
        }
    }
    let mut acc: u64 = 0;
    let mut i: usize = start;
    while i < end
        invariant
            start <= i <= end <= v@.len(),
            end - start <= 8,
            acc == be_val(v@.subrange(start as int, i as int)),
            pow256(8) == 0x10000000000000000,
        decreases end - i,
    {
        proof {
            lemma_be_val_bound(v@.subrange(start as int, i as int));
            lemma_pow256_mono((i - start) as nat, 7);
            assert(pow256(7) == 0x100000000000000) by {
                reveal_with_fuel(pow256, 9);
            }
            let sub1 = v@.subrange(start as int, i + 1);
            assert(sub1.drop_last() =~= v@.subrange(start as int, i as int));
            assert(sub1.last() == v@[i as int]);
        }
        acc = acc * 256 + (v[i] as u64);
        i = i + 1;
    }
    acc
}

/// The character of one decimal digit.
pub open spec fn digit_char(d: int) -> char {
    if d == 0 {
        '0'
    } else if d == 1 {
        '1'
    } else if d == 2 {
        '2'
    } else if d == 3 {
        '3'
    } else if d == 4 {
        '4'
    } else if d == 5 {
        '5'
    } else if d == 6 {
        '6'
    } else if d == 7 {
        '7'
    } else if d == 8 {
        '8'
    } else {
        '9'
    }
}

/// The character of one hexadecimal digit, lower case.
pub open spec fn hex_char(d: int) -> char {
    if d < 10 {
        digit_char(d)
    } else if d == 10 {
        'a'
    } else if d == 11 {
        'b'
    } else if d == 12 {
        'c'
    } else if d == 13 {
        'd'
    } else if d == 14 {
        'e'
    } else {
        'f'
    }
}

/// The decimal digits of `n`, most significant first.
pub open spec fn dec_str(n: nat) -> Seq<char>
    decreases n,
{
    if n < 10 {
        seq![digit_char(n as int)]
    } else {
        dec_str(n / 10) + seq![digit_char((n % 10) as int)]
    }
}

/// The last `w` decimal digits of `n`, zero padded at the front.
pub open spec fn dec_pad(n: nat, w: nat) -> Seq<char>
    decreases w,
{
    if w == 0 {
        Seq::empty()
    } else {
        dec_pad(n / 10, (w - 1) as nat) + seq![digit_char((n % 10) as int)]
    }
}

/// The decimal digits of `i`, with a leading minus sign when negative.
pub open spec fn int_str(i: int) -> Seq<char> {
    if i < 0 {
        seq!['-'] + dec_str((-i) as nat)
    } else {
        dec_str(i as nat)
    }
}

/// Appends the character of one decimal digit.
pub fn push_digit(s: &mut String, d: u8)
    requires
        d < 10,
    ensures
        final(s)@ == old(s)@ + seq![digit_char(d as int)],
{
    proof {
        reveal_strlit("0");
        reveal_strlit("1");
        reveal_strlit("2");
        reveal_strlit("3");
        reveal_strlit("4");
        reveal_strlit("5");
        reveal_strlit("6");
        reveal_strlit("7");
        reveal_strlit("8");
        reveal_strlit("9");
    }
    if d == 0 {
        s.append("0");
    } else if d == 1 {
        s.append("1");
    } else if d == 2 {
        s.append("2");
    } else if d == 3 {
        s.append("3");
    } else if d == 4 {
        s.append("4");
    } else if d == 5 {
        s.append("5");
    } else if d == 6 {
        s.append("6");
    } else if d == 7 {
        s.append("7");
    } else if d == 8 {
        s.append("8");
    } else {
        s.append("9");
    }
    proof {
        assert(s@ =~= old(s)@ + seq![digit_char(d as int)]);
    }
}

/// Appends the character of one hexadecimal digit, lower case.
pub fn push_hex_digit(s: &mut String, d: u8)
    requires
        d < 16,
    ensures
        final(s)@ == old(s)@ + seq![hex_char(d as int)],
{
    if d < 10 {
        push_digit(s, d);
    } else {
        proof {
            reveal_strlit("a");
            reveal_strlit("b");
            reveal_strlit("c");
            reveal_strlit("d");
            reveal_strlit("e");
            reveal_strlit("f");
        }
        if d == 10 {
            s.append("a");
        } else if d == 11 {
            s.append("b");
        } else if d == 12 {
            s.append("c");
        } else if d == 13 {
            s.append("d");
        } else if d == 14 {
            s.append("e");
        } else {
            s.append("f");
        }
        proof {
            assert(s@ =~= old(s)@ + seq![hex_char(d as int)]);
        }
    }
}

/// Appends the two hexadecimal digits of one byte.
pub fn push_hex_byte(s: &mut String, b: u8)
    ensures
        final(s)@ == old(s)@ + seq![hex_char(b as int / 16), hex_char(b as int % 16)],
{
    push_hex_digit(s, b / 16);
    push_hex_digit(s, b % 16);
    proof {
        assert(s@ =~= old(s)@ + seq![hex_char(b as int / 16), hex_char(b as int % 16)]);
    }
}

/// Appends the decimal digits of `n`.
pub fn push_dec_u64(s: &mut String, n: u64)
    ensures
        final(s)@ == old(s)@ + dec_str(n as nat),
    decreases n,
{
    if n < 10 {
        push_digit(s, n as u8);
    } else {
        push_dec_u64(s, n / 10);
        push_digit(s, (n % 10) as u8);
        proof {
            assert(s@ =~= old(s)@ + dec_str(n as nat));
        }
    }
}

/// Appends the last `w` decimal digits of `n`, zero padded at the front.
pub fn push_dec_pad(s: &mut String, n: u64, w: u64)
    ensures
        final(s)@ == old(s)@ + dec_pad(n as nat, w as nat),
    decreases w,
{
    if w == 0 {
        proof {
            assert(s@ =~= old(s)@ + dec_pad(n as nat, 0));
        }
    } else {
        push_dec_pad(s, n / 10, w - 1);
        push_digit(s, (n % 10) as u8);
        proof {
            assert(s@ =~= old(s)@ + dec_pad(n as nat, w as nat));
        }
    }
}

/// The exponent field that normalizing a subnormal single-precision
/// mantissa reaches, doubling from `e` downward.
pub open spec fn norm_exp(m: nat, e: int) -> int
    decreases (if m >= 0x800000 {
        0nat
    } else {
        (0x800000 - m) as nat
    }),
{
    if m == 0 || m >= 0x800000 {
        e
    } else {
        norm_exp(2 * m, e - 1)
    }
}

/// The mantissa field that normalizing a subnormal single-precision
/// mantissa reaches.
pub open spec fn norm_man(m: nat) -> nat
    decreases (if m >= 0x800000 {
        0nat
    } else {
        (0x800000 - m) as nat
    }),
{
    if m == 0 {
        0
    } else if m >= 0x800000 {
        (m - 0x800000) as nat
    } else {
        norm_man(2 * m)
    }
}

/// The double-precision bit pattern with the same sign, exponent and
/// mantissa as the single-precision bit pattern `b`: the exact widening of
/// one IEEE-754 value to the other.
pub open spec fn widen_f32_bits(b: nat) -> int {
    let s = b / 0x80000000;
    let e = (b / 0x800000) % 0x100;
    let m = b % 0x800000;
    if e == 0xff {
        (s * 0x8000000000000000 + 0x7ff * 0x10000000000000 + m * 0x20000000) as int
    } else if e > 0 {
        (s * 0x8000000000000000 + (e + 896) * 0x10000000000000 + m * 0x20000000) as int
    } else if m == 0 {
        (s * 0x8000000000000000) as int
    } else {
        s * 0x8000000000000000 + norm_exp(m, 897) * 0x10000000000000 + norm_man(m)
            * 0x20000000
    }
}

proof fn lemma_norm_bounds(m: nat, e: int)
    requires
        1 <= m < 0x1000000,
    ensures
        e - 23 <= norm_exp(m, e) <= e,
        norm_man(m) < 0x800000,
    decreases (if m >= 0x800000 {
        0nat
    } else {
        (0x800000 - m) as nat
    }),
{
    if m >= 0x800000 {
        assert(norm_man(m) == (m - 0x800000) as nat);
    } else {
        lemma_norm_bounds(2 * m, e - 1);
        lemma_norm_exp_depth(m, e);
    }
}

/// Each doubling step loses one exponent, and at most 23 steps happen,
/// because the mantissa at least doubles each time.
proof fn lemma_norm_exp_depth(m: nat, e: int)
    requires
        1 <= m < 0x800000,
    ensures
        norm_exp(m, e) >= e - 23,
    decreases (0x800000 - m) as nat,
{
    lemma2_to64();
    lemma_norm_exp_lower(m, e, 0);
}

/// Helper: with `m >= pow2(t)` the normalization takes at most `23 - t`
/// further steps.
proof fn lemma_norm_exp_lower(m: nat, e: int, t: nat)
    requires
        1 <= m,
        t <= 23,
        m >= pow2(t),
    ensures
        norm_exp(m, e) >= e - 23 + t,
    decreases (if m >= 0x800000 {
        0nat
    } else {
        (0x800000 - m) as nat
    }),
{
    lemma2_to64();
    if m >= 0x800000 {
    } else {
        assert(pow2(t) <= m);
        if t == 23 {
            assert(pow2(23) == 0x800000);
            assert(false);
        } else {
            assert(pow2((t + 1) as nat) == 2 * pow2(t)) by {
                vstd::arithmetic::power2::lemma_pow2_unfold((t + 1) as nat);
            }
            lemma_norm_exp_lower(2 * m, e - 1, (t + 1) as nat);
        }
    }
}

/// Widens a single-precision bit pattern to the double-precision pattern of
/// the same value.
pub fn widen_f32(b: u32) -> (r: u64)
    ensures
        r as int == widen_f32_bits(b as nat),
{
    let s: u64 = (b / 0x80000000) as u64;
    let e: u64 = ((b / 0x800000) % 0x100) as u64;
    let m: u64 = (b % 0x800000) as u64;
    if e == 0xff {
        s * 0x8000000000000000 + 0x7ff * 0x10000000000000 + m * 0x20000000
    } else if e > 0 {
        s * 0x8000000000000000 + (e + 896) * 0x10000000000000 + m * 0x20000000
    } else if m == 0 {
        s * 0x8000000000000000
    } else {
        let mut mm: u64 = m;
        let mut ee: i64 = 897;
        proof {
            lemma_norm_bounds(mm as nat, ee as int);
        }
        while mm < 0x800000
            invariant
                1 <= mm < 0x1000000,
                874 <= ee <= 897,
                norm_exp(mm as nat, ee as int) == norm_exp(m as nat, 897),
                norm_man(mm as nat) == norm_man(m as nat),
                norm_exp(m as nat, 897) >= 874,
            decreases 0x1000000 - mm,
        {
            proof {
                lemma_norm_bounds(mm as nat, ee as int);
                lemma_norm_bounds((2 * mm) as nat, ee - 1);
            }
            mm = mm * 2;
            ee = ee - 1;
        }
        s * 0x8000000000000000 + ((ee as u64)) * 0x10000000000000 + ((mm - 0x800000))
            * 0x20000000
    }
}

/// The leading byte carries the top weight of a big-endian value.
pub proof fn lemma_be_val_msb(s: Seq<u8>)
    requires
        s.len() >= 1,
    ensures
        be_val(s) == s[0] * pow256((s.len() - 1) as nat) + be_val(s.drop_first()),
        be_val(s.drop_first()) < pow256((s.len() - 1) as nat),
    decreases s.len(),
{
    lemma_be_val_bound(s.drop_first());
    if s.len() == 1 {
        assert(s.drop_last() =~= Seq::empty());
        assert(s.drop_first() =~= Seq::empty());
        assert(s.last() == s[0]);
        assert(be_val(s) == s[0]);
        assert(be_val(s.drop_first()) == 0);
        assert(pow256(0) == 1);
        assert(s[0] * pow256(0) == s[0]) by (nonlinear_arith)
            requires
                pow256(0) == 1,
        ;
    } else {
        let dl = s.drop_last();
        let df = s.drop_first();
        lemma_be_val_msb(dl);
        assert(dl.drop_first() =~= df.drop_last());
        assert(dl[0] == s[0]);
        assert(df.last() == s.last());
        assert(be_val(s) == be_val(dl) * 256 + s.last());
        assert(be_val(df) == be_val(df.drop_last()) * 256 + s.last());
        assert(be_val(dl) == s[0] * pow256((s.len() - 2) as nat) + be_val(df.drop_last()));
        assert((s[0] * pow256((s.len() - 2) as nat) + be_val(df.drop_last())) * 256 == s[0]
            * pow256((s.len() - 1) as nat) + be_val(df.drop_last()) * 256) by (nonlinear_arith)
            requires
                pow256((s.len() - 1) as nat) == 256 * pow256((s.len() - 2) as nat),
        ;
        assert(be_val(s) == s[0] * pow256((s.len() - 1) as nat) + be_val(df));
    }
}

/// A big-endian two's complement value is negative exactly when the sign
/// bit of its leading byte is set.
pub proof fn lemma_twos_comp_negative(s: Seq<u8>)
    requires
        s.len() >= 1,
    ensures
        twos_comp(s) < 0 <==> s[0] >= 128,
        twos_comp(s) < 0 ==> -twos_comp(s) == pow256(s.len()) - be_val(s),
        twos_comp(s) >= 0 ==> twos_comp(s) == be_val(s),
        be_val(s) >= 1 || twos_comp(s) >= 0,
{
    lemma_be_val_msb(s);
    lemma_be_val_bound(s);
    lemma_pow256_mono(0, (s.len() - 1) as nat);
    let p = pow256((s.len() - 1) as nat) as int;
    assert(pow256(s.len()) == 256 * p);
    let b0 = s[0] as int;
    let rest = be_val(s.drop_first()) as int;
    assert(2 * (b0 * p + rest) >= 256 * p <==> b0 >= 128) by (nonlinear_arith)
        requires
            0 <= b0 <= 255,
            0 <= rest < p,
            p >= 1,
    ;
    assert(be_val(s) == b0 * p + rest);
    assert(2 * be_val(s) >= pow256(s.len()) <==> s[0] >= 128);
}

} // verus!
