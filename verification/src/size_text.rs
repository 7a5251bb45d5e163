use crate::text::string_of;
use vstd::arithmetic::div_mod::lemma_div_denominator;
use vstd::arithmetic::power2::{lemma2_to64, lemma_pow2_unfold, pow2};
use vstd::prelude::*;
use vstd::string::StringExecFns;

verus! {

/// `num / den` rounded to the nearest integer, a tie going to the even one.
pub open spec fn round_half_even(num: nat, den: nat) -> nat {
    let q = num / den;
    let r = num % den;
    if 2 * r < den {
        q
    } else if 2 * r > den {
        q + 1
    } else if q % 2 == 0 {
        q
    } else {
        q + 1
    }
}

/// The least power of two `p` for which `n / p` fits a 53-bit significand.
pub open spec fn significand_scale(n: nat) -> nat
    decreases n,
{
    if n < 0x20_0000_0000_0000 {
        1
    } else {
        2 * significand_scale(n / 2)
    }
}

/// The double-precision number nearest to the integer `n`, a tie going to
/// the even significand.
pub open spec fn nearest_double(n: nat) -> nat {
    let p = significand_scale(n);
    round_half_even(n, p) * p
}

/// Doubles `scaled` and `scale` together until `scaled / d` has reached
/// 2^52, the least value of a full significand.
pub open spec fn normalized(scaled: nat, scale: nat, d: nat) -> (nat, nat)
    decreases
        (if scaled < 0x10_0000_0000_0000 * d {
            0x10_0000_0000_0000 * d - scaled
        } else {
            0
        }),
{
    if scaled == 0 || scaled >= 0x10_0000_0000_0000 * d {
        (scaled, scale)
    } else {
        normalized(2 * scaled, 2 * scale, d)
    }
}

/// The hundredths in the two-decimal text of the double-precision quotient
/// `a / d`: the quotient is rounded to a 53-bit significand first, and that
/// number to hundredths, both times to the nearest with a tie going to the
/// even neighbour.
pub open spec fn quotient_hundredths(a: nat, d: nat) -> nat {
    let (scaled, scale) = normalized(a, 1, d);
    round_half_even(100 * round_half_even(scaled, d), scale)
}

/// The hundredths of a size in its unit: megabytes from 1,000,000 bytes on,
/// kilobytes below.
pub open spec fn size_hundredths(size: u64) -> nat {
    if size >= 1_000_000 {
        quotient_hundredths(nearest_double(size as nat), 1_000_000)
    } else {
        quotient_hundredths(size as nat, 1_000)
    }
}

/// The character of a decimal digit.
pub open spec fn digit(d: nat) -> char {
    if d == 0 {
        '0'
    } else if d == 1 {
        '1'
    } else if d == 2 {
        '2'
    } else if d == 3 {
        '3'
    } else if d == 4 {
        '4'
    } else if d == 5 {
        '5'
    } else if d == 6 {
        '6'
    } else if d == 7 {
        '7'
    } else if d == 8 {
        '8'
    } else {
        '9'
    }
}

/// The decimal numeral of `n`.
pub open spec fn decimal(n: nat) -> Seq<char>
    decreases n,
{
    if n < 10 {
        seq![digit(n)]
    } else {
        decimal(n / 10).push(digit(n % 10))
    }
}

/// A number of hundredths written with two decimals.
pub open spec fn two_decimals(h: nat) -> Seq<char> {
    decimal(h / 100) + seq!['.', digit(h / 10 % 10), digit(h % 10)]
}

/// The text of a size: two decimals and the unit, megabytes (of 1,000,000
/// bytes) from 1,000,000 bytes on, kilobytes (of 1,000 bytes) below.
pub open spec fn size_text(size: u64) -> Seq<char> {
    two_decimals(size_hundredths(size)) + (if size >= 1_000_000 {
        " MB"@
    } else {
        " KB"@
    })
}

/// What `significand_scale` is: the power of two by which `n` must be
/// divided to fit 53 bits, and no larger one.
pub proof fn lemma_significand_scale(n: nat)
    ensures
        significand_scale(n) > 0,
        n / significand_scale(n) < 0x20_0000_0000_0000,
        exists|e: nat|
            significand_scale(n) == #[trigger] pow2(e) && (e > 0 ==> n / significand_scale(n)
                >= 0x10_0000_0000_0000),
    decreases n,
{
    lemma2_to64();
    if n < 0x20_0000_0000_0000 {
        assert(significand_scale(n) == pow2(0));
    } else {
        let half = n / 2;
        let p = significand_scale(half);
        lemma_significand_scale(half);
        let e = choose|e: nat| p == #[trigger] pow2(e) && (e > 0 ==> half / p >= 0x10_0000_0000_0000);
        lemma_pow2_unfold(e + 1);
        lemma_div_denominator(n as int, 2, p as int);
        assert(significand_scale(n) == pow2(e + 1));
        assert(n / significand_scale(n) == half / p);
        if e == 0 {
            assert(p == 1);
            assert(half / p == half);
        }
    }
}

/// What `normalized` arrives at: the numerator and the scale, both times
/// the one power of two that brings the quotient by `d` into the range of a
/// full significand, from 2^52 up to 2^53.
pub proof fn lemma_normalized(scaled: nat, scale: nat, d: nat)
    requires
        0 < scaled < 0x20_0000_0000_0000 * d,
    ensures
        ({
            let (m, s) = normalized(scaled, scale, d);
            &&& 0x10_0000_0000_0000 * d <= m < 0x20_0000_0000_0000 * d
            &&& exists|e: nat| m == scaled * pow2(e) && s == scale * #[trigger] pow2(e)
        }),
    decreases
        (if scaled < 0x10_0000_0000_0000 * d {
            0x10_0000_0000_0000 * d - scaled
        } else {
            0
        }),
{
    let (m, s) = normalized(scaled, scale, d);
    if scaled >= 0x10_0000_0000_0000 * d {
        lemma2_to64();
        assert(m == scaled * pow2(0) && s == scale * pow2(0));
    } else {
        lemma_normalized(2 * scaled, 2 * scale, d);
        let e = choose|e: nat| m == (2 * scaled) * pow2(e) && s == (2 * scale) * #[trigger] pow2(e);
        lemma_pow2_unfold(e + 1);
        assert(m == scaled * pow2(e + 1)) by (nonlinear_arith)
            requires
                m == (2 * scaled) * pow2(e),
                pow2(e + 1) == 2 * pow2(e),
        ;
        assert(s == scale * pow2(e + 1)) by (nonlinear_arith)
            requires
                s == (2 * scale) * pow2(e),
                pow2(e + 1) == 2 * pow2(e),
        ;
    }
}

/// `num / den` rounded to the nearest integer, a tie going to the even one.
pub fn rounded_quotient(num: u128, den: u128) -> (r: u128)
    requires
        den > 0,
        num / den < u128::MAX,
    ensures
        r == round_half_even(num as nat, den as nat),
        r <= num / den + 1,
{
    let q = num / den;
    let rest = num % den;
    if rest < den - rest {
        q
    } else if rest > den - rest {
        q + 1
    } else if q % 2 == 0 {
        q
    } else {
        q + 1
    }
}

/// The double-precision number nearest to `n`.
pub fn nearest_double_of(n: u64) -> (a: u128)
    ensures
        a == nearest_double(n as nat),
        a <= n + 0x1000,
{
    let mut m: u64 = n;
    let mut p: u64 = 1;
    while m >= 0x20_0000_0000_0000
        invariant
            1 <= p < 0x1000,
            m * p <= n,
            m >= 0x20_0000_0000_0000 ==> p < 0x800,
            significand_scale(n as nat) == p * significand_scale(m as nat),
        decreases m,
    {
        proof {
            let half = (m / 2) as int;
            assert(half * (2 * p) <= m * p) by (nonlinear_arith)
                requires
                    half * 2 <= m,
                    p >= 1,
            ;
            assert(p * (2 * significand_scale((m / 2) as nat)) == (2 * p) * significand_scale(
                (m / 2) as nat,
            )) by (nonlinear_arith);
            if half >= 0x20_0000_0000_0000 {
                assert(2 * p < 0x800) by (nonlinear_arith)
                    requires
                        half * (2 * p) <= n,
                        half >= 0x20_0000_0000_0000,
                        n < 0x1_0000_0000_0000_0000,
                        p >= 1,
                ;
            }
        }
        m = m / 2;
        p = p * 2;
    }
    let r = rounded_quotient(n as u128, p as u128);
    proof {
        assert(significand_scale(m as nat) == 1);
        assert(significand_scale(n as nat) == p) by (nonlinear_arith)
            requires
                significand_scale(n as nat) == p * significand_scale(m as nat),
                significand_scale(m as nat) == 1,
        ;
        assert((n as int / p as int) * p <= n) by (nonlinear_arith)
            requires
                p >= 1,
                n >= 0,
        ;
        assert(r * p <= n + p) by (nonlinear_arith)
            requires
                r <= n as int / p as int + 1,
                (n as int / p as int) * p <= n,
                p >= 1,
        ;
    }
    r * (p as u128)
}

/// The hundredths in the two-decimal text of the double-precision quotient
/// `a / d`.
pub fn hundredths_of(a: u128, d: u128) -> (h: u128)
    requires
        d == 1_000 || d == 1_000_000,
        a < 0x20_0000_0000_0000 * d,
    ensures
        h == quotient_hundredths(a as nat, d as nat),
{
    if a == 0 {
        proof {
            assert(normalized(0, 1, d as nat) == (0nat, 1nat));
            assert(round_half_even(0, d as nat) == 0);
            assert(round_half_even(0, 1) == 0);
        }
        return 0;
    }
    let mut scaled: u128 = a;
    let mut scale: u128 = 1;
    while scaled < 0x10_0000_0000_0000 * d
        invariant
            d == 1_000 || d == 1_000_000,
            0 < scaled < 0x20_0000_0000_0000 * d,
            1 <= scale <= scaled,
            normalized(a as nat, 1, d as nat) == normalized(scaled as nat, scale as nat, d as nat),
        decreases
            (if scaled < 0x10_0000_0000_0000 * d {
                0x10_0000_0000_0000 * d - scaled
            } else {
                0
            }),
    {
        scaled = scaled * 2;
        scale = scale * 2;
    }
    let m = rounded_quotient(scaled, d);
    rounded_quotient(100 * m, scale)
}

/// The character of a decimal digit.
pub fn digit_char(d: u8) -> (c: char)
    requires
        d < 10,
    ensures
        c == digit(d as nat),
{
    if d == 0 {
        '0'
    } else if d == 1 {
        '1'
    } else if d == 2 {
        '2'
    } else if d == 3 {
        '3'
    } else if d == 4 {
        '4'
    } else if d == 5 {
        '5'
    } else if d == 6 {
        '6'
    } else if d == 7 {
        '7'
    } else if d == 8 {
        '8'
    } else {
        '9'
    }
}

/// Appends the decimal numeral of `n` to `out`.
pub fn push_decimal(n: u128, out: &mut Vec<char>)
    ensures
        final(out)@ == old(out)@ + decimal(n as nat),
    decreases n,
{
    if n >= 10 {
        push_decimal(n / 10, out);
    }
    out.push(digit_char((n % 10) as u8));
    proof {
        assert(out@ =~= old(out)@ + decimal(n as nat));
    }
}

/// Writes a size in bytes as megabytes, from 1,000,000 bytes on, or as
/// kilobytes, with two decimals.
pub fn format_size(size: u64) -> (text: String)
    ensures
        text@ == size_text(size),
{
    let h = if size >= 1_000_000 {
        hundredths_of(nearest_double_of(size), 1_000_000)
    } else {
        hundredths_of(size as u128, 1_000)
    };
    let mut chars: Vec<char> = Vec::new();
    push_decimal(h / 100, &mut chars);
    chars.push('.');
    chars.push(digit_char((h / 10 % 10) as u8));
    chars.push(digit_char((h % 10) as u8));
    proof {
        assert(chars@ =~= two_decimals(h as nat));
    }
    let mut text = string_of(chars.as_slice());
    if size >= 1_000_000 {
        text.append(" MB");
    } else {
        text.append(" KB");
    }
    text
}

} // verus!
