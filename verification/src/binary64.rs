use vstd::arithmetic::div_mod::{
    lemma_div_by_multiple, lemma_div_by_multiple_is_strongly_ordered, lemma_div_is_ordered,
    lemma_fundamental_div_mod,
};
use vstd::arithmetic::mul::{lemma_mul_inequality, lemma_mul_strict_inequality};
use vstd::arithmetic::power2::{
    lemma2_to64, lemma2_to64_rest, lemma_pow2_adds, lemma_pow2_pos,
    lemma_pow2_strictly_increases, lemma_pow2_unfold, pow2,
};
use vstd::math::abs;
use vstd::prelude::*;

verus! {

/// The place of the highest bit that is set in a positive number: the `e` with
/// `2^e <= v < 2^(e + 1)`.
pub open spec fn top_bit(v: nat) -> nat
    decreases v,
{
    if v <= 1 {
        0
    } else {
        1 + top_bit(v / 2)
    }
}

/// The whole number nearest to `v / unit`, and of two that are equally near the
/// even one.
pub open spec fn nearest_even(v: nat, unit: nat) -> nat {
    let kept = v / unit;
    let rest = v % unit;
    if 2 * rest > unit || (2 * rest == unit && kept % 2 == 1) {
        kept + 1
    } else {
        kept
    }
}

/// The significand of the 64-bit float nearest to a positive whole number: the
/// number scaled to 53 bits, exactly where it has no more than that, and else
/// rounded to the nearest, ties to even. It lies between `2^52` and `2^53`,
/// both included.
pub open spec fn significand(v: nat) -> nat {
    let e = top_bit(v);
    if e <= 52 {
        v * pow2((52 - e) as nat)
    } else {
        nearest_even(v, pow2((e - 52) as nat))
    }
}

/// The IEEE 754 bit pattern of the 64-bit float nearest to an unsigned 64-bit
/// number, ties to even: sign 0, the exponent of the highest set bit with the
/// bias 1023 in bits 52 to 62, and below it the significand without its leading
/// bit. A significand that rounding carried to `2^53` moves on to the next
/// exponent.
pub open spec fn real_of_unsigned(v: u64) -> u64 {
    if v == 0 {
        0
    } else {
        ((top_bit(v as nat) + 1022) * pow2(52) + significand(v as nat)) as u64
    }
}

/// The number that the pattern of a positive float of magnitude one or more
/// stands for, times `2^52`: the fraction in the low 52 bits with a leading
/// one before it, times two to the power held in the eleven bits above them,
/// less the bias 1023.
pub open spec fn scaled_value(bits: u64) -> nat {
    (pow2(52) + bits as nat % pow2(52)) * pow2((bits as nat / pow2(52) - 1023) as nat)
}

/// A positive number lies between the power of two at the place of its
/// highest bit and the next one.
pub proof fn lemma_top_bit_bounds(v: nat)
    requires
        v > 0,
    ensures
        pow2(top_bit(v)) <= v < pow2(top_bit(v) + 1),
    decreases v,
{
    lemma2_to64();
    if v > 1 {
        lemma_top_bit_bounds(v / 2);
        lemma_pow2_unfold(top_bit(v));
        lemma_pow2_unfold(top_bit(v) + 1);
    }
}

/// The float made of a positive number is the nearest one, and of two that
/// are equally near the one with the even significand.
///
/// With `e` the place of the number's highest bit and `m` its significand,
/// the pattern has a clear sign bit and stands for `m * 2^(e - 52)`. Up to 53
/// bits that is the number itself. Beyond, every float between `2^e` and
/// `2^(e + 1)` is a multiple of `2^(e - 52)`; the one chosen is no further
/// than half of that from the number, and where it is exactly half away, `m`
/// is even.
pub proof fn lemma_real_of_unsigned_is_nearest(v: u64)
    requires
        v > 0,
    ensures
        ({
            let bits = real_of_unsigned(v);
            let e = top_bit(v as nat);
            let m = significand(v as nat);
            &&& e <= 63
            &&& pow2(e) <= v < pow2(e + 1)
            &&& pow2(52) <= m <= pow2(53)
            &&& bits < pow2(63)
            &&& scaled_value(bits) == m * pow2(e)
            &&& e <= 52 ==> m == v * pow2((52 - e) as nat)
            &&& e > 52 ==> {
                let unit = pow2((e - 52) as nat);
                &&& 2 * abs(m * unit - v) <= unit
                &&& 2 * abs(m * unit - v) == unit ==> m % 2 == 0
            }
        }),
{
    let bits = real_of_unsigned(v);
    let e = top_bit(v as nat);
    let m = significand(v as nat);
    lemma2_to64();
    lemma2_to64_rest();
    lemma_top_bit_bounds(v as nat);
    if e >= 64 {
        if e > 64 {
            lemma_pow2_strictly_increases(64, e);
        }
        assert(false);
    }
    if e <= 52 {
        let scale = pow2((52 - e) as nat);
        lemma_pow2_pos((52 - e) as nat);
        lemma_pow2_adds(e, (52 - e) as nat);
        lemma_pow2_adds(e + 1, (52 - e) as nat);
        lemma_mul_inequality(pow2(e) as int, v as int, scale as int);
        lemma_mul_strict_inequality(
            v as int,
            pow2(e + 1) as int,
            scale as int,
        );
        assert(pow2(52) <= m < pow2(53));
    } else {
        let unit = pow2((e - 52) as nat);
        let kept = v as nat / unit;
        let rest = v as nat % unit;
        lemma_pow2_pos((e - 52) as nat);
        lemma_pow2_adds(52, (e - 52) as nat);
        lemma_pow2_adds(53, (e - 52) as nat);
        lemma_fundamental_div_mod(v as int, unit as int);
        lemma_div_is_ordered(
            (pow2(52) * unit) as int,
            v as int,
            unit as int,
        );
        lemma_div_by_multiple(pow2(52) as int, unit as int);
        lemma_div_by_multiple_is_strongly_ordered(
            v as int,
            (pow2(53) * unit) as int,
            pow2(53) as int,
            unit as int,
        );
        lemma_div_by_multiple(pow2(53) as int, unit as int);
        assert(pow2(52) <= kept < pow2(53));
        assert(0 <= rest < unit);
        assert(v == unit * kept + rest);
        assert(m == kept || m == kept + 1);
        assert(m * unit - v == (m - kept) * unit - rest) by (nonlinear_arith)
            requires
                v == unit * kept + rest,
        ;
        if m == kept + 1 {
            assert((m - kept) * unit == unit) by (nonlinear_arith)
                requires
                    m - kept == 1,
            ;
        } else {
            assert((m - kept) * unit == 0) by (nonlinear_arith)
                requires
                    m - kept == 0,
            ;
        }
    }
    assert(pow2(52) <= m <= pow2(53));
    let high = (e + 1022) * pow2(52);
    assert(bits == high + m);
    if m < pow2(52) * 2 {
        assert(bits as nat / pow2(52) == e + 1023);
        assert(bits as nat % pow2(52) == m - pow2(52));
    } else {
        assert(m == pow2(53));
        assert(bits as nat / pow2(52) == e + 1024);
        assert(bits as nat % pow2(52) == 0);
        lemma_pow2_unfold(e + 1);
        assert(pow2(52) * pow2(e + 1) == m * pow2(e)) by (nonlinear_arith)
            requires
                pow2(e + 1) == 2 * pow2(e),
                m == 2 * pow2(52),
        ;
    }
}

/// A number between two neighbouring powers of two has its highest bit at the
/// lower one's place.
pub proof fn lemma_top_bit(v: nat, e: nat)
    requires
        pow2(e) <= v < pow2(e + 1),
    ensures
        top_bit(v) == e,
    decreases e,
{
    lemma2_to64();
    if e == 0 {
        lemma_pow2_unfold(1);
    } else {
        lemma_pow2_unfold(e);
        lemma_pow2_unfold(e + 1);
        lemma_pow2_pos((e - 1) as nat);
        lemma_top_bit(v / 2, (e - 1) as nat);
    }
}

/// Two to the power `n`.
fn power_of_two(n: u32) -> (r: u64)
    requires
        n < 64,
    ensures
        r == pow2(n as nat),
{
    let mut r: u64 = 1;
    let mut k: u32 = 0;
    proof {
        lemma2_to64();
        lemma2_to64_rest();
    }
    while k < n
        invariant
            k <= n < 64,
            r == pow2(k as nat),
            r <= pow2(63),
            k < 63 ==> r < pow2(63),
        decreases n - k,
    {
        proof {
            lemma_pow2_unfold((k + 1) as nat);
            lemma2_to64_rest();
            if k + 1 < 63 {
                lemma_pow2_strictly_increases((k + 1) as nat, 63);
            }
        }
        r = r * 2;
        k = k + 1;
    }
    r
}

/// The place of the highest bit that is set in a positive number.
fn highest_bit(v: u64) -> (e: u32)
    requires
        v > 0,
    ensures
        e < 64,
        e == top_bit(v as nat),
        pow2(e as nat) <= v < pow2((e + 1) as nat),
{
    let mut e: u32 = 63;
    let mut top: u64 = 0x8000_0000_0000_0000;
    proof {
        lemma2_to64();
        lemma2_to64_rest();
    }
    while v < top
        invariant
            e < 64,
            top == pow2(e as nat),
            v < pow2((e + 1) as nat),
            v > 0,
        decreases e,
    {
        proof {
            lemma2_to64();
            if e > 0 {
                lemma_pow2_unfold(e as nat);
            }
        }
        top = top / 2;
        e = e - 1;
    }
    proof {
        lemma_top_bit(v as nat, e as nat);
    }
    e
}

/// The bit pattern of the 64-bit float that an unsigned number is turned
/// into: the nearest one, and of two that are equally near the one with the
/// even significand.
pub fn real_from_unsigned(v: u64) -> (bits: u64)
    ensures
        bits == real_of_unsigned(v),
{
    if v == 0 {
        return 0;
    }
    let e: u32 = highest_bit(v);
    proof {
        lemma2_to64();
        lemma2_to64_rest();
    }
    let sig: u64 = if e <= 52 {
        let scale: u64 = power_of_two(52 - e);
        proof {
            lemma_pow2_adds((e + 1) as nat, (52 - e) as nat);
            lemma_mul_strict_inequality(
                v as int,
                pow2((e + 1) as nat) as int,
                scale as int,
            );
        }
        v * scale
    } else {
        let unit: u64 = power_of_two(e - 52);
        let kept: u64 = v / unit;
        let rest: u64 = v % unit;
        proof {
            lemma_pow2_adds(53, (e - 52) as nat);
            lemma_pow2_strictly_increases((e - 52) as nat, 12);
            assert(kept < pow2(53)) by {
                lemma_div_by_multiple_is_strongly_ordered(
                    v as int,
                    (pow2(53) * unit) as int,
                    pow2(53) as int,
                    unit as int,
                );
                lemma_div_by_multiple(pow2(53) as int, unit as int);
            }
        }
        if 2 * rest > unit || (2 * rest == unit && kept % 2 == 1) {
            kept + 1
        } else {
            kept
        }
    };
    let exponent: u64 = (e as u64 + 1022) * 0x10_0000_0000_0000;
    exponent + sig
}

} // verus!
