//! Numbers of the language are IEEE-754 binary64 values, held as their
//! bit patterns. This module gives what the interpreter needs of them
//! that integer arithmetic can decide: comparison, conversion to an index
//! or a count, and conversion of a count to a number.
//!
//! A finite binary64 value is an integer multiple of 2^-1074; `value`
//! gives that integer (so the number is `value(b) * 2^-1074`), and takes
//! infinity as 2^2098, which lies above every finite magnitude.
use vstd::prelude::*;
use vstd::arithmetic::power2::*;
use vstd::arithmetic::div_mod::*;
use vstd::arithmetic::mul::*;
use vstd::bits::*;

verus! {

/// The biased exponent field of a binary64 bit pattern.
pub open spec fn exp_field(b: u64) -> nat {
    ((b / 0x10000000000000) % 2048) as nat
}

/// The fraction field of a binary64 bit pattern.
pub open spec fn frac_field(b: u64) -> nat {
    (b % 0x10000000000000) as nat
}

/// The sign bit is set.
pub open spec fn is_negative(b: u64) -> bool {
    b >= 0x8000000000000000
}

/// The pattern is a NaN.
pub open spec fn is_nan(b: u64) -> bool {
    exp_field(b) == 2047 && frac_field(b) != 0
}

/// The magnitude, scaled by 2^1074, of the value with exponent field `e`
/// and fraction field `f`.
pub open spec fn mag_of(e: nat, f: nat) -> nat {
    if e >= 2047 {
        pow2(2098)
    } else if e == 0 {
        f
    } else {
        (0x10000000000000 + f) * pow2((e - 1) as nat)
    }
}

/// The magnitude of the number, scaled by 2^1074.
pub open spec fn magnitude(b: u64) -> nat {
    mag_of(exp_field(b), frac_field(b))
}

/// The signed value of the number, scaled by 2^1074.
pub open spec fn value(b: u64) -> int {
    if is_negative(b) {
        -magnitude(b)
    } else {
        magnitude(b) as int
    }
}

/// `x == y` on binary64: false when either is NaN, and +0 equals -0.
pub open spec fn num_eq(x: u64, y: u64) -> bool {
    !is_nan(x) && !is_nan(y) && value(x) == value(y)
}

/// `x < y` on binary64: false when either is NaN.
pub open spec fn num_lt(x: u64, y: u64) -> bool {
    !is_nan(x) && !is_nan(y) && value(x) < value(y)
}

/// `x as u64`: rounds toward zero and saturates; NaN gives 0.
pub open spec fn trunc_u64(b: u64) -> nat {
    if is_nan(b) || is_negative(b) {
        0
    } else if magnitude(b) / pow2(1074) > u64::MAX {
        u64::MAX as nat
    } else {
        magnitude(b) / pow2(1074)
    }
}

/// `x.round() as u64`: rounds half away from zero, then saturates; NaN gives 0.
pub open spec fn round_u64(b: u64) -> nat {
    if is_nan(b) || is_negative(b) {
        0
    } else if (magnitude(b) + pow2(1073)) / pow2(1074) > u64::MAX {
        u64::MAX as nat
    } else {
        (magnitude(b) + pow2(1073)) / pow2(1074)
    }
}

/// Saturation of a count at `usize::MAX`, as `as usize` does.
pub open spec fn clamp_usize(n: nat) -> nat {
    if n > usize::MAX {
        usize::MAX as nat
    } else {
        n
    }
}

/// The number of binary digits of `n`.
pub open spec fn bit_len(n: nat) -> nat
    decreases n,
{
    if n == 0 {
        0
    } else {
        1 + bit_len(n / 2)
    }
}

/// `n` rounded to 53 significant bits, ties to even: the value of `n as f64`.
pub open spec fn round_to_double(n: nat) -> nat {
    let l = bit_len(n);
    if l <= 53 {
        n
    } else {
        let k = (l - 53) as nat;
        let q = n / pow2(k);
        let r = n % pow2(k);
        let h = pow2((k - 1) as nat);
        (if r > h || (r == h && q % 2 == 1) {
            q + 1
        } else {
            q
        }) * pow2(k)
    }
}

/// `b` is the bit pattern of the count `n` converted to binary64.
pub open spec fn is_count_bits(b: u64, n: nat) -> bool {
    !is_negative(b) && !is_nan(b) && exp_field(b) < 2047 && magnitude(b) == round_to_double(n)
        * pow2(1074)
}

/// The bit pattern of `n as f64`.
pub open spec fn count_bits(n: nat) -> u64 {
    choose|b: u64| is_count_bits(b, n)
}

/// The bit pattern of `0.0`.
pub open spec fn zero_bits() -> u64 {
    0
}

/// The bit pattern of `1.0`.
pub open spec fn one_bits() -> u64 {
    0x3FF0000000000000
}

proof fn lemma_fields(b: u64)
    ensures
        (b >> 52u64) & 0x7ffu64 == exp_field(b),
        b & 0xFFFFFFFFFFFFFu64 == frac_field(b),
        (b >> 63u64 == 1u64) == is_negative(b),
        b & 0x7FFFFFFFFFFFFFFFu64 == exp_field(b) * 0x10000000000000 + frac_field(b),
        exp_field(b) < 2048,
        frac_field(b) < 0x10000000000000,
{
    assert((b >> 52u64) & 0x7ffu64 == (b / 0x10000000000000u64) % 2048u64) by (bit_vector);
    assert(b & 0xFFFFFFFFFFFFFu64 == b % 0x10000000000000u64) by (bit_vector);
    assert((b >> 63u64 == 1u64) == (b >= 0x8000000000000000u64)) by (bit_vector);
    assert(b & 0x7FFFFFFFFFFFFFFFu64 == ((b / 0x10000000000000u64) % 2048u64) * 0x10000000000000u64
        + b % 0x10000000000000u64) by (bit_vector);
}

proof fn lemma_pow2_52()
    ensures
        pow2(52) == 0x10000000000000,
        pow2(53) == 0x20000000000000,
        pow2(64) == 0x10000000000000000,
{
    lemma2_to64();
    lemma2_to64_rest();
}

/// Bounds of the magnitude of a normal number with exponent field `e`.
proof fn lemma_mag_bounds(e: nat, f: nat)
    requires
        1 <= e <= 2046,
        f < 0x10000000000000,
    ensures
        pow2(e + 51) <= mag_of(e, f) < pow2(e + 52),
{
    lemma_pow2_52();
    let p = pow2((e - 1) as nat);
    lemma_pow2_adds(52, (e - 1) as nat);
    lemma_pow2_adds(53, (e - 1) as nat);
    lemma_pow2_pos((e - 1) as nat);
    assert(0x10000000000000 * p <= (0x10000000000000 + f) * p) by (nonlinear_arith)
        requires
            0 <= f,
            p > 0,
    ;
    assert((0x10000000000000 + f) * p < 0x20000000000000 * p) by (nonlinear_arith)
        requires
            f < 0x10000000000000,
            p > 0,
    ;
}

/// The magnitude grows with the exponent and fraction fields taken together.
proof fn lemma_mag_monotone(e1: nat, f1: nat, e2: nat, f2: nat)
    requires
        e1 <= 2047,
        e2 <= 2047,
        f1 < 0x10000000000000,
        f2 < 0x10000000000000,
        e1 == 2047 ==> f1 == 0,
        e2 == 2047 ==> f2 == 0,
        e1 < e2 || (e1 == e2 && f1 < f2),
    ensures
        mag_of(e1, f1) < mag_of(e2, f2),
{
    lemma_pow2_52();
    if e1 == e2 {
        if e1 != 0 {
            let p = pow2((e1 - 1) as nat);
            lemma_pow2_pos((e1 - 1) as nat);
            assert((0x10000000000000 + f1) * p < (0x10000000000000 + f2) * p) by (nonlinear_arith)
                requires
                    f1 < f2,
                    p > 0,
            ;
        }
    } else {
        // mag(e1) < pow2(e1 + 52) <= mag(e2)
        if e1 == 0 {
            assert(mag_of(e1, f1) < pow2(52));
        } else {
            lemma_mag_bounds(e1, f1);
        }
        if e2 == 2047 {
            if e1 + 52 < 2098 {
                lemma_pow2_strictly_increases(e1 + 52, 2098);
            }
        } else {
            lemma_mag_bounds(e2, f2);
            if e1 + 52 < e2 + 51 {
                lemma_pow2_strictly_increases(e1 + 52, e2 + 51);
            }
        }
    }
}

proof fn lemma_mag_order(a: u64, b: u64)
    requires
        !is_nan(a),
        !is_nan(b),
    ensures
        (a & 0x7FFFFFFFFFFFFFFFu64) < (b & 0x7FFFFFFFFFFFFFFFu64) <==> magnitude(a) < magnitude(b),
        (a & 0x7FFFFFFFFFFFFFFFu64) == (b & 0x7FFFFFFFFFFFFFFFu64) <==> magnitude(a) == magnitude(b),
        (a & 0x7FFFFFFFFFFFFFFFu64) == 0 <==> magnitude(a) == 0,
{
    lemma_fields(a);
    lemma_fields(b);
    let (ea, fa, eb, fb) = (exp_field(a), frac_field(a), exp_field(b), frac_field(b));
    if ea < eb || (ea == eb && fa < fb) {
        lemma_mag_monotone(ea, fa, eb, fb);
    } else if eb < ea || (ea == eb && fb < fa) {
        lemma_mag_monotone(eb, fb, ea, fa);
    }
    if ea == 0 && fa == 0 {
    } else {
        lemma_mag_monotone(0, 0, ea, fa);
    }
}

/// `x == y` on binary64.
pub fn number_eq(x: u64, y: u64) -> (r: bool)
    ensures
        r == num_eq(x, y),
{
    proof {
        lemma_fields(x);
        lemma_fields(y);
    }
    let nan_x = ((x >> 52) & 0x7ff) == 0x7ff && (x & 0xFFFFFFFFFFFFF) != 0;
    let nan_y = ((y >> 52) & 0x7ff) == 0x7ff && (y & 0xFFFFFFFFFFFFF) != 0;
    if nan_x || nan_y {
        return false;
    }
    proof {
        lemma_mag_order(x, y);
    }
    let mx = x & 0x7FFFFFFFFFFFFFFF;
    let my = y & 0x7FFFFFFFFFFFFFFF;
    if mx == 0 && my == 0 {
        true
    } else {
        (x >> 63) == (y >> 63) && mx == my
    }
}

/// `x < y` on binary64.
pub fn number_lt(x: u64, y: u64) -> (r: bool)
    ensures
        r == num_lt(x, y),
{
    proof {
        lemma_fields(x);
        lemma_fields(y);
    }
    let nan_x = ((x >> 52) & 0x7ff) == 0x7ff && (x & 0xFFFFFFFFFFFFF) != 0;
    let nan_y = ((y >> 52) & 0x7ff) == 0x7ff && (y & 0xFFFFFFFFFFFFF) != 0;
    if nan_x || nan_y {
        return false;
    }
    proof {
        lemma_mag_order(x, y);
    }
    let mx = x & 0x7FFFFFFFFFFFFFFF;
    let my = y & 0x7FFFFFFFFFFFFFFF;
    let neg_x = (x >> 63) == 1;
    let neg_y = (y >> 63) == 1;
    if !neg_x && !neg_y {
        mx < my
    } else if neg_x && neg_y {
        my < mx
    } else if !neg_x && neg_y {
        false
    } else {
        !(mx == 0 && my == 0)
    }
}

/// (x * 2^a) / 2^(a + k) == x / 2^k
proof fn lemma_div_pow2_cancel(x: nat, a: nat, k: nat)
    ensures
        (x * pow2(a)) / pow2(a + k) == x / pow2(k),
{
    lemma_pow2_adds(a, k);
    lemma_pow2_pos(a);
    lemma_pow2_pos(k);
    lemma_div_denominator((x * pow2(a)) as int, pow2(a) as int, pow2(k) as int);
    lemma_mul_is_commutative(x as int, pow2(a) as int);
    lemma_div_multiples_vanish(x as int, pow2(a) as int);
}

/// (x * 2^(a + k)) / 2^a == x * 2^k
proof fn lemma_div_pow2_shift(x: nat, a: nat, k: nat)
    ensures
        (x * pow2(a + k)) / pow2(a) == x * pow2(k),
{
    lemma_pow2_adds(a, k);
    lemma_pow2_pos(a);
    lemma_mul_is_associative(x as int, pow2(k) as int, pow2(a) as int);
    lemma_mul_is_commutative(pow2(k) as int, pow2(a) as int);
    lemma_mul_is_commutative((x * pow2(k)) as int, pow2(a) as int);
    lemma_div_multiples_vanish((x * pow2(k)) as int, pow2(a) as int);
}

/// If x >= 2^(a + k) then x / 2^a >= 2^k.
proof fn lemma_div_pow2_lower(x: nat, a: nat, k: nat)
    requires
        x >= pow2(a + k),
    ensures
        x / pow2(a) >= pow2(k),
{
    lemma_pow2_pos(a);
    lemma_div_is_ordered(pow2(a + k) as int, x as int, pow2(a) as int);
    lemma_div_pow2_shift(1, a, k);
}

/// If x < 2^a then x / 2^a == 0.
proof fn lemma_div_pow2_small(x: nat, a: nat)
    requires
        x < pow2(a),
    ensures
        x / pow2(a) == 0,
{
    lemma_basic_div(x as int, pow2(a) as int);
}

/// `x as u64` for a binary64 `x`.
pub fn number_to_u64(b: u64) -> (r: u64)
    ensures
        r == trunc_u64(b),
{
    proof {
        lemma_fields(b);
        lemma_pow2_52();
    }
    let e = (b >> 52) & 0x7ff;
    let f = b & 0xFFFFFFFFFFFFF;
    if (b >> 63) == 1 {
        return 0;
    }
    if e == 2047 {
        if f == 0 {
            proof {
                lemma_div_pow2_shift(1, 1074, 1024);
                lemma_pow2_strictly_increases(64, 1024);
            }
            return u64::MAX;
        } else {
            return 0;
        }
    }
    if e < 1023 {
        proof {
            if e == 0 {
                lemma_pow2_strictly_increases(52, 1074);
            } else {
                lemma_mag_bounds(e as nat, f as nat);
                if e + 52 < 1074 {
                    lemma_pow2_strictly_increases((e + 52) as nat, 1074);
                }
            }
            lemma_div_pow2_small(magnitude(b), 1074);
        }
        return 0;
    }
    if e >= 1087 {
        proof {
            lemma_mag_bounds(e as nat, f as nat);
            if e + 51 > 1138 {
                lemma_pow2_strictly_increases(1138, (e + 51) as nat);
            }
            lemma_div_pow2_lower(magnitude(b), 1074, 64);
        }
        return u64::MAX;
    }
    let sig = f + 0x10000000000000;
    if e >= 1075 {
        let k = e - 1075;
        proof {
            assert(magnitude(b) == sig * pow2(1074 + k as nat));
            lemma_div_pow2_shift(sig as nat, 1074, k as nat);
            if k < 11 {
                lemma_pow2_strictly_increases(k as nat, 11);
            }
            lemma2_to64();
            lemma_pow2_pos(k as nat);
            assert(sig * pow2(k as nat) < 0x20000000000000 * pow2(11)) by (nonlinear_arith)
                requires
                    sig < 0x20000000000000,
                    0 < pow2(k as nat) <= pow2(11),
            ;
            lemma_u64_shl_is_mul(sig, k);
        }
        sig << k
    } else {
        let s = 1075 - e;
        proof {
            assert(magnitude(b) == sig * pow2((e - 1) as nat));
            lemma_div_pow2_cancel(sig as nat, (e - 1) as nat, s as nat);
            lemma_u64_shr_is_div(sig, s);
            lemma_pow2_pos(s as nat);
            lemma_div_is_ordered_by_denominator(sig as int, 1, pow2(s as nat) as int);
        }
        sig >> s
    }
}

/// `x as usize` for a binary64 `x`.
pub fn number_to_usize(b: u64) -> (r: usize)
    ensures
        r == clamp_usize(trunc_u64(b)),
{
    let v = number_to_u64(b);
    if v > usize::MAX as u64 {
        usize::MAX
    } else {
        v as usize
    }
}

/// `x.round() as usize` for a binary64 `x`.
pub fn number_round_to_usize(b: u64) -> (r: usize)
    ensures
        r == clamp_usize(round_u64(b)),
{
    let v = number_round_to_u64(b);
    if v > usize::MAX as u64 {
        usize::MAX
    } else {
        v as usize
    }
}

/// `x.round() as u64` for a binary64 `x`.
pub fn number_round_to_u64(b: u64) -> (r: u64)
    ensures
        r == round_u64(b),
{
    proof {
        lemma_fields(b);
        lemma_pow2_52();
    }
    let e = (b >> 52) & 0x7ff;
    let f = b & 0xFFFFFFFFFFFFF;
    if (b >> 63) == 1 {
        return 0;
    }
    if e == 2047 {
        if f == 0 {
            proof {
                lemma_div_pow2_shift(1, 1074, 1024);
                lemma_pow2_strictly_increases(64, 1024);
                lemma_pow2_pos(1074);
                lemma_div_is_ordered(
                    pow2(2098) as int,
                    (pow2(2098) + pow2(1073)) as int,
                    pow2(1074) as int,
                );
                lemma_pow2_adds(1074, 1024);
            }
            return u64::MAX;
        } else {
            return 0;
        }
    }
    if e < 1022 {
        proof {
            if e == 0 {
                lemma_pow2_strictly_increases(52, 1073);
            } else {
                lemma_mag_bounds(e as nat, f as nat);
                if e + 52 < 1073 {
                    lemma_pow2_strictly_increases((e + 52) as nat, 1073);
                }
            }
            lemma_pow2_adds(1073, 1);
            lemma2_to64();
            lemma_div_pow2_small(magnitude(b) + pow2(1073), 1074);
        }
        return 0;
    }
    if e >= 1087 {
        proof {
            lemma_mag_bounds(e as nat, f as nat);
            if e + 51 > 1138 {
                lemma_pow2_strictly_increases(1138, (e + 51) as nat);
            }
            lemma_div_pow2_lower(magnitude(b) + pow2(1073), 1074, 64);
        }
        return u64::MAX;
    }
    let sig = f + 0x10000000000000;
    if e >= 1075 {
        let k = e - 1075;
        proof {
            assert(magnitude(b) == sig * pow2(1074 + k as nat));
            lemma_div_pow2_shift(sig as nat, 1074, k as nat);
            lemma_pow2_adds(1074, k as nat);
            lemma_pow2_strictly_increases(1073, 1074);
            lemma_mul_is_commutative(pow2(1074) as int, (sig * pow2(k as nat)) as int);
            lemma_mul_is_associative(sig as int, pow2(k as nat) as int, pow2(1074) as int);
            lemma_div_multiples_vanish_fancy(
                (sig * pow2(k as nat)) as int,
                pow2(1073) as int,
                pow2(1074) as int,
            );
            if k < 11 {
                lemma_pow2_strictly_increases(k as nat, 11);
            }
            lemma2_to64();
            lemma_pow2_pos(k as nat);
            assert(sig * pow2(k as nat) < 0x20000000000000 * pow2(11)) by (nonlinear_arith)
                requires
                    sig < 0x20000000000000,
                    0 < pow2(k as nat) <= pow2(11),
            ;
            lemma_u64_shl_is_mul(sig, k);
            let pk = pow2(k as nat);
            let pa = pow2(1074);
            assert(magnitude(b) == pa * (sig * pk)) by (nonlinear_arith)
                requires
                    magnitude(b) == sig * pow2(1074 + k as nat),
                    pow2(1074 + k as nat) == pa * pk,
            ;
            assert((magnitude(b) + pow2(1073)) / pow2(1074) == sig * pow2(k as nat));
        }
        sig << k
    } else {
        let s = 1075 - e;
        proof {
            lemma_pow2_strictly_increases((s - 1) as nat, 53);
            lemma_u64_shl_is_mul(1, (s - 1) as u64);
        }
        let half: u64 = 1u64 << (s - 1);
        proof {
            let p = pow2((e - 1) as nat);
            assert(magnitude(b) == sig * p);
            lemma_pow2_adds((s - 1) as nat, (e - 1) as nat);
            lemma_pow2_adds(s as nat, (e - 1) as nat);
            assert(magnitude(b) + pow2(1073) == (sig + half) * p) by (nonlinear_arith)
                requires
                    magnitude(b) == sig * p,
                    pow2(1073) == half * p,
            ;
            lemma_mul_is_commutative(pow2(s as nat) as int, p as int);
            lemma_div_pow2_cancel((sig + half) as nat, (e - 1) as nat, s as nat);
            lemma_u64_shr_is_div((sig + half) as u64, s);
            lemma_pow2_pos(s as nat);
            lemma_div_is_ordered_by_denominator((sig + half) as int, 1, pow2(s as nat) as int);
            assert(pow2(1073) == half * p);
            assert((magnitude(b) + pow2(1073)) / pow2(1074) == ((sig + half) as nat) / pow2(s as nat));
        }
        (sig + half) >> s
    }
}


proof fn lemma_bit_len_bounds(n: nat)
    requires
        n > 0,
    ensures
        bit_len(n) >= 1,
        pow2((bit_len(n) - 1) as nat) <= n < pow2(bit_len(n)),
    decreases n,
{
    if n / 2 == 0 {
        assert(n == 1);
        assert(bit_len(0) == 0);
        lemma2_to64();
    } else {
        lemma_bit_len_bounds(n / 2);
        let l = bit_len(n / 2);
        lemma_pow2_unfold(l);
        if l >= 1 {
            lemma_pow2_unfold(l);
        }
        lemma_pow2_unfold((l + 1) as nat);
    }
}

/// The bits of a positive normal number with exponent field `e` and
/// fraction field `frac`.
proof fn lemma_pack(e: u64, frac: u64)
    requires
        1 <= e < 2047,
        frac < 0x10000000000000,
    ensures
        (e << 52u64) | frac == e * 0x10000000000000 + frac,
        exp_field(((e << 52u64) | frac) as u64) == e,
        frac_field(((e << 52u64) | frac) as u64) == frac,
        !is_negative(((e << 52u64) | frac) as u64),
{
    assert((e << 52u64) | frac == e * 0x10000000000000u64 + frac) by (bit_vector)
        requires
            e < 2047u64,
            frac < 0x10000000000000u64,
    ;
    let b = ((e << 52u64) | frac) as u64;
    assert((b / 0x10000000000000u64) % 2048u64 == e && b % 0x10000000000000u64 == frac && b
        < 0x8000000000000000u64) by (bit_vector)
        requires
            b == e * 0x10000000000000u64 + frac,
            e < 2047u64,
            frac < 0x10000000000000u64,
    ;
}

/// A finite non-negative number is fixed by its magnitude.
proof fn lemma_count_bits_unique(a: u64, b: u64, n: nat)
    requires
        is_count_bits(a, n),
        is_count_bits(b, n),
    ensures
        a == b,
{
    lemma_fields(a);
    lemma_fields(b);
    lemma_mag_order(a, b);
    assert((a & 0x7FFFFFFFFFFFFFFFu64) == (b & 0x7FFFFFFFFFFFFFFFu64));
    assert(a == a & 0x7FFFFFFFFFFFFFFFu64) by (bit_vector)
        requires
            a < 0x8000000000000000u64,
    ;
    assert(b == b & 0x7FFFFFFFFFFFFFFFu64) by (bit_vector)
        requires
            b < 0x8000000000000000u64,
    ;
}

/// `n as f64` for a count `n`: the number nearest to `n`, ties to even.
pub fn number_from_usize(n: usize) -> (r: u64)
    ensures
        r == count_bits(n as nat),
{
    let r = number_from_usize_bits(n);
    proof {
        assert(is_count_bits(r, n as nat));
        let c = count_bits(n as nat);
        assert(is_count_bits(c, n as nat));
        lemma_count_bits_unique(r, c, n as nat);
    }
    r
}

/// The bits of `n as f64`, by integer arithmetic.
fn number_from_usize_bits(n: usize) -> (r: u64)
    ensures
        !is_negative(r),
        !is_nan(r),
        exp_field(r) < 2047,
        magnitude(r) == round_to_double(n as nat) * pow2(1074),
{
    proof {
        lemma_pow2_52();
    }
    if n == 0 {
        proof {
            lemma_fields(0);
            assert(bit_len(0) == 0);
            assert(round_to_double(0) == 0);
            assert(exp_field(0) == 0 && frac_field(0) == 0);
            assert(magnitude(0) == 0);
        }
        return 0;
    }
    let x = n as u64;
    let mut t: u64 = x;
    let mut l: u64 = 0;
    proof {
        lemma_bit_len_bounds(x as nat);
        lemma2_to64();
        if bit_len(x as nat) > 64 {
            lemma_pow2_strictly_increases(64, (bit_len(x as nat) - 1) as nat);
        }
    }
    while t > 0
        invariant
            x > 0,
            bit_len(x as nat) <= 64,
            t as nat == x as nat / pow2(l as nat),
            bit_len(x as nat) == l + bit_len(t as nat),
        decreases t,
    {
        proof {
            lemma_u64_shr_is_div(t, 1);
            lemma2_to64();
            lemma_pow2_pos(l as nat);
            lemma_div_denominator(x as int, pow2(l as nat) as int, 2);
            lemma_pow2_unfold((l + 1) as nat);
            lemma_mul_is_commutative(2, pow2(l as nat) as int);
        }
        t = t >> 1;
        l = l + 1;
    }
    let ghost lg = l as nat;
    assert(bit_len(x as nat) == lg);
    proof {
        lemma_bit_len_bounds(x as nat);
    }
    if l <= 53 {
        let shift = 53 - l;
        proof {
            lemma_pow2_adds(shift as nat, (lg - 1) as nat);
            lemma_pow2_adds(shift as nat, lg);
            lemma_pow2_pos(shift as nat);
            assert(x * pow2(shift as nat) < pow2(lg) * pow2(shift as nat)) by (nonlinear_arith)
                requires
                    x < pow2(lg),
                    pow2(shift as nat) > 0,
            ;
            assert(pow2((lg - 1) as nat) * pow2(shift as nat) <= x * pow2(shift as nat))
                by (nonlinear_arith)
                requires
                    pow2((lg - 1) as nat) <= x,
                    pow2(shift as nat) > 0,
            ;
            lemma_mul_is_commutative(pow2(lg) as int, pow2(shift as nat) as int);
            lemma_mul_is_commutative(pow2((lg - 1) as nat) as int, pow2(shift as nat) as int);
            lemma_u64_shl_is_mul(x, shift);
        }
        let m = x << shift;
        let frac = m - 0x10000000000000;
        let e = l + 1022;
        proof {
            lemma_pack(e, frac);
            let bits = ((e << 52u64) | frac) as u64;
            assert(magnitude(bits) == m * pow2((e - 1) as nat));
            lemma_pow2_adds(shift as nat, (e - 1) as nat);
            assert(m * pow2((e - 1) as nat) == x * pow2(1074)) by (nonlinear_arith)
                requires
                    m == x * pow2(shift as nat),
                    pow2(shift as nat) * pow2((e - 1) as nat) == pow2(1074),
            ;
        }
        (e << 52) | frac
    } else {
        let k = l - 53;
        proof {
            lemma_pow2_strictly_increases(k as nat, 64);
            lemma_pow2_strictly_increases((k - 1) as nat, 64);
            lemma_u64_shl_is_mul(1, k);
            lemma_u64_shl_is_mul(1, (k - 1) as u64);
        }
        let q = x >> k;
        let p = 1u64 << k;
        let low = x & (p - 1);
        let h = 1u64 << (k - 1);
        proof {
            lemma_u64_shr_is_div(x, k);
            lemma_u64_low_bits_mask_is_mod(x, k as nat);
            assert(low == x % p);
            assert(q & 1 == 1 <==> q % 2 == 1) by (bit_vector);
            // 2^52 <= q < 2^53
            lemma_pow2_adds(k as nat, 52);
            lemma_pow2_adds(k as nat, 53);
            lemma_pow2_pos(k as nat);
            lemma_div_is_ordered(pow2(k as nat + 52) as int, x as int, pow2(k as nat) as int);
            lemma_div_pow2_shift(1, k as nat, 52);
            lemma_mul_is_commutative(pow2(k as nat) as int, pow2(53) as int);
            lemma_multiply_divide_lt(x as int, pow2(k as nat) as int, pow2(53) as int);
        }
        let up = low > h || (low == h && (q & 1) == 1);
        let q2 = if up { q + 1 } else { q };
        proof {
            assert(round_to_double(x as nat) == q2 * pow2(k as nat));
        }
        if q2 == 0x20000000000000 {
            let e = l + 1023;
            proof {
                lemma_pack(e, 0);
                let bits = ((e << 52u64) | 0) as u64;
                assert(magnitude(bits) == 0x10000000000000 * pow2((e - 1) as nat));
                lemma_pow2_adds(52, (e - 1) as nat);
                lemma_pow2_adds(53, k as nat);
                lemma_pow2_adds((53 + k) as nat, 1074);
                lemma_mul_is_associative(pow2(53) as int, pow2(k as nat) as int, pow2(1074) as int);
            }
            (e << 52) | 0
        } else {
            let frac = q2 - 0x10000000000000;
            let e = l + 1022;
            proof {
                lemma_pack(e, frac);
                let bits = ((e << 52u64) | frac) as u64;
                assert(magnitude(bits) == q2 * pow2((e - 1) as nat));
                lemma_pow2_adds(k as nat, 1074);
                lemma_mul_is_associative(q2 as int, pow2(k as nat) as int, pow2(1074) as int);
            }
            (e << 52) | frac
        }
    }
}

/// The `x != 0.0` test: true for every number but the zeros, NaN included.
pub fn number_is_nonzero(b: u64) -> (r: bool)
    ensures
        r == !num_eq(b, zero_bits()),
{
    number_eq(b, 0) == false
}

proof fn lemma_bit_len_below(n: nat, k: nat)
    requires
        n < pow2(k),
    ensures
        bit_len(n) <= k,
    decreases k,
{
    if n > 0 {
        if k == 0 {
            lemma2_to64();
        } else {
            lemma_pow2_unfold(k);
            assert(pow2(k) == 2 * pow2((k - 1) as nat));
            assert(n / 2 < pow2((k - 1) as nat));
            lemma_bit_len_below(n / 2, (k - 1) as nat);
        }
    }
}

/// A count below 2^53 converted to a number and back (`as usize`, with or
/// without rounding first) is the same count: an address that `ref` gives
/// is the one that `access` and an index read.
pub proof fn law_count_round_trip(b: u64, n: nat)
    requires
        is_count_bits(b, n),
        n < 0x20000000000000,
        n <= usize::MAX,
    ensures
        round_u64(b) == n,
        trunc_u64(b) == n,
        clamp_usize(n) == n,
{
    lemma_pow2_52();
    lemma_bit_len_below(n, 53);
    assert(round_to_double(n) == n);
    let p = pow2(1074);
    let h = pow2(1073);
    lemma_pow2_adds(1, 1073);
    lemma2_to64();
    assert(p == 2 * h);
    lemma_pow2_pos(1073);
    assert(magnitude(b) == n * p);
    lemma_fundamental_div_mod_converse((n * p + h) as int, p as int, n as int, h as int);
    lemma_fundamental_div_mod_converse((n * p) as int, p as int, n as int, 0);
}

/// A count below 2^53 has a binary64 pattern: `count_bits` of it is one.
pub proof fn lemma_count_bits_exact(n: nat)
    requires
        n < 0x20000000000000,
    ensures
        is_count_bits(count_bits(n), n),
{
    lemma_pow2_52();
    lemma_bit_len_below(n, 53);
    assert(round_to_double(n) == n);
    if n == 0 {
        assert(exp_field(0) == 0 && frac_field(0) == 0);
        assert(is_count_bits(0, 0));
    } else {
        lemma_bit_len_bounds(n);
        let l = bit_len(n);
        let s = (53 - l) as nat;
        let m = n * pow2(s);
        lemma_pow2_adds(s, (l - 1) as nat);
        lemma_pow2_adds(s, l);
        lemma_pow2_pos(s);
        assert(pow2(s) * pow2((l - 1) as nat) <= n * pow2(s)) by (nonlinear_arith)
            requires
                pow2((l - 1) as nat) <= n,
                pow2(s) > 0,
        ;
        assert(n * pow2(s) < pow2(s) * pow2(l)) by (nonlinear_arith)
            requires
                n < pow2(l),
                pow2(s) > 0,
        ;
        assert(s + (l - 1) == 52);
        assert(s + l == 53);
        assert(pow2((s + (l - 1) as nat) as nat) == pow2(52));
        assert(pow2((s + l) as nat) == pow2(53));
        assert(pow2(s) * pow2((l - 1) as nat) == 0x10000000000000);
        assert(pow2(s) * pow2(l) == 0x20000000000000);
        assert(0x10000000000000 <= m);
        assert(m < 0x20000000000000);
        let f = (m - 0x10000000000000) as nat;
        let e = 1022 + l;
        assert(e <= 1075);
        let bits = e * 0x10000000000000 + f;
        assert(bits < 0x8000000000000000);
        let b = bits as u64;
        lemma_fundamental_div_mod_converse(b as int, 0x10000000000000, e as int, f as int);
        lemma_fundamental_div_mod_converse(e as int, 2048, 0, e as int);
        assert(exp_field(b) == e);
        assert(frac_field(b) == f);
        lemma_pow2_adds(s, (e - 1) as nat);
        assert(s + (e - 1) == 1074);
        assert(magnitude(b) == m * pow2((e - 1) as nat));
        assert(m * pow2((e - 1) as nat) == n * pow2(1074)) by (nonlinear_arith)
            requires
                m == n * pow2(s),
                pow2(1074) == pow2(s) * pow2((e - 1) as nat),
        ;
        assert(is_count_bits(b, n));
    }
}

} // verus!
