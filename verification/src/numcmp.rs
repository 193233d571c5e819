//! Executable numeric comparison across the three number representations:
//! small integers, bignums and floats. Floats are compared through their
//! bit patterns; every result is proved equal to integer comparison of the
//! values scaled by 2^1074, the spec the comparator is written against.

use vstd::prelude::*;

use core::cmp::Ordering;
use vstd::arithmetic::mul::{
    lemma_mul_inequality,
};
use vstd::arithmetic::power2::{
    lemma2_to64, lemma2_to64_rest, lemma_pow2_adds, lemma_pow2_pos, lemma_pow2_strictly_increases,
    pow2,
};
use vstd::bits::lemma_u64_shl_is_mul;

use crate::bignum::{big_cmp, big_from_i128, big_shl, big_value};
use crate::lterm::{SMALL_MAX, SMALL_MIN};
use crate::order::{f_num, mag_em, ord_int, ord_rev};

verus! {

/// A nonzero exponent/mantissa pair has positive magnitude.
proof fn lemma_mag_pos(e: nat, m: nat)
    requires
        e != 0 || m != 0,
    ensures
        mag_em(e, m) > 0,
{
    if e != 0 {
        lemma_pow2_pos((e - 1) as nat);
        lemma_mul_inequality(1, (0x10_0000_0000_0000 + m) as int, pow2((e - 1) as nat) as int);
    }
}

/// Magnitudes order exactly as (exponent, mantissa) pairs order
/// lexicographically.
proof fn lemma_mag_lex(e1: nat, m1: nat, e2: nat, m2: nat)
    requires
        m1 < 0x10_0000_0000_0000,
        m2 < 0x10_0000_0000_0000,
    ensures
        mag_em(e1, m1) < mag_em(e2, m2) <==> (e1 < e2 || (e1 == e2 && m1 < m2)),
        mag_em(e1, m1) == mag_em(e2, m2) <==> (e1 == e2 && m1 == m2),
{
    lemma2_to64();
    lemma2_to64_rest();
    if e1 == e2 {
        if e1 != 0 {
            let p = pow2((e1 - 1) as nat) as int;
            lemma_pow2_pos((e1 - 1) as nat);
            let c1 = (0x10_0000_0000_0000 + m1) as int;
            let c2 = (0x10_0000_0000_0000 + m2) as int;
            assert(c1 < c2 <==> c1 * p < c2 * p) by (nonlinear_arith)
                requires
                    p > 0,
            ;
            assert(c1 == c2 <==> c1 * p == c2 * p) by (nonlinear_arith)
                requires
                    p > 0,
            ;
        }
    } else {
        let (ea, ma, eb, mb) = if e1 < e2 {
            (e1, m1, e2, m2)
        } else {
            (e2, m2, e1, m1)
        };
        // With ea < eb: mag(ea, ma) < 2^(ea+52) <= 2^(eb+51) <= mag(eb, mb).
        let cb = (0x10_0000_0000_0000 + mb) as int;
        let pb = pow2((eb - 1) as nat) as int;
        lemma_pow2_pos((eb - 1) as nat);
        lemma_pow2_adds(52, (eb - 1) as nat);
        assert(0x10_0000_0000_0000 * pb <= cb * pb) by (nonlinear_arith)
            requires
                pb > 0,
                cb >= 0x10_0000_0000_0000,
        ;
        assert(mag_em(eb, mb) == cb * pb);
        assert(pow2((eb + 51) as nat) == pow2(52) * pow2((eb - 1) as nat)) by {
            lemma_pow2_adds(52, (eb - 1) as nat);
            assert((eb + 51) as nat == 52 + ((eb - 1) as nat));
        }
        assert(mag_em(eb, mb) >= pow2((eb + 51) as nat));
        if ea == 0 {
            if eb >= 2 {
                lemma_pow2_strictly_increases(52, (eb + 51) as nat);
            }
            assert(mag_em(ea, ma) < pow2(52));
        } else {
            let ca = (0x10_0000_0000_0000 + ma) as int;
            let pa = pow2((ea - 1) as nat) as int;
            lemma_pow2_pos((ea - 1) as nat);
            lemma_pow2_adds(53, (ea - 1) as nat);
            assert(ca * pa < 0x20_0000_0000_0000 * pa) by (nonlinear_arith)
                requires
                    pa > 0,
                    ca < 0x20_0000_0000_0000,
            ;
            assert(mag_em(ea, ma) == ca * pa);
            assert(pow2((ea + 52) as nat) == pow2(53) * pow2((ea - 1) as nat)) by {
                lemma_pow2_adds(53, (ea - 1) as nat);
                assert((ea + 52) as nat == 53 + ((ea - 1) as nat));
            }
            assert(mag_em(ea, ma) < pow2((ea + 52) as nat));
            if ea + 52 < eb + 51 {
                lemma_pow2_strictly_increases((ea + 52) as nat, (eb + 51) as nat);
            }
        }
    }
}

/// Reverse an ordering.
pub fn rev_ord(o: Ordering) -> (r: Ordering)
    ensures
        r == ord_rev(o),
{
    match o {
        Ordering::Less => Ordering::Greater,
        Ordering::Equal => Ordering::Equal,
        Ordering::Greater => Ordering::Less,
    }
}

/// Compare two finite floats by bit pattern.
pub fn cmp_float_bits(x: u64, y: u64) -> (r: Ordering)
    requires
        crate::model::float_finite(x),
        crate::model::float_finite(y),
    ensures
        r == ord_int(f_num(x), f_num(y)),
{
    let ex = (x >> 52u64) & 0x7ffu64;
    let mx = x & 0xf_ffff_ffff_ffffu64;
    let ey = (y >> 52u64) & 0x7ffu64;
    let my = y & 0xf_ffff_ffff_ffffu64;
    let x_zero = ex == 0 && mx == 0;
    let y_zero = ey == 0 && my == 0;
    proof {
        assert(x & 0xf_ffff_ffff_ffffu64 < 0x10_0000_0000_0000u64) by (bit_vector);
        assert(y & 0xf_ffff_ffff_ffffu64 < 0x10_0000_0000_0000u64) by (bit_vector);
        assert(x >> 63u64 == 0 || x >> 63u64 == 1) by (bit_vector);
        assert(y >> 63u64 == 0 || y >> 63u64 == 1) by (bit_vector);
        if !x_zero {
            lemma_mag_pos(ex as nat, mx as nat);
        }
        if !y_zero {
            lemma_mag_pos(ey as nat, my as nat);
        }
        lemma_mag_lex(ex as nat, mx as nat, ey as nat, my as nat);
    }
    if x_zero && y_zero {
        Ordering::Equal
    } else if (x >> 63u64) != (y >> 63u64) {
        if x >> 63u64 == 1 {
            Ordering::Less
        } else {
            Ordering::Greater
        }
    } else {
        let mag_ord = if ex < ey {
            Ordering::Less
        } else if ex > ey {
            Ordering::Greater
        } else if mx < my {
            Ordering::Less
        } else if mx > my {
            Ordering::Greater
        } else {
            Ordering::Equal
        };
        if x >> 63u64 == 1 {
            rev_ord(mag_ord)
        } else {
            mag_ord
        }
    }
}

/// Negating both sides reverses the ordering.
proof fn lemma_ord_neg(x: int, y: int)
    ensures
        ord_int(-x, -y) == ord_rev(ord_int(x, y)),
{
}

/// Cancelling a positive common factor preserves the ordering.
proof fn lemma_ord_scale(x: int, y: int, c: int)
    requires
        c > 0,
    ensures
        ord_int(x * c, y * c) == ord_int(x, y),
{
    assert(x < y <==> x * c < y * c) by (nonlinear_arith)
        requires
            c > 0,
    ;
    assert(x == y <==> x * c == y * c) by (nonlinear_arith)
        requires
            c > 0,
    ;
}

/// Compare a positive integer `a` (scaled by 2^1074) against the magnitude
/// of a finite nonzero float given as exponent and mantissa.
fn cmp_mag_abs(a: u64, e: u64, m: u64) -> (r: Ordering)
    requires
        1 <= a,
        a <= 0x1000_0000_0000_0000,
        e <= 0x7fe,
        m < 0x10_0000_0000_0000,
        e != 0 || m != 0,
    ensures
        r == ord_int(a * pow2(1074), mag_em(e as nat, m as nat) as int),
{
    proof {
        lemma2_to64();
        lemma2_to64_rest();
    }
    if e == 0 {
        // Subnormal: magnitude below 2^52, while a * 2^1074 >= 2^1074.
        proof {
            lemma_pow2_strictly_increases(52, 1074);
            lemma_mul_inequality(1, a as int, pow2(1074) as int);
        }
        Ordering::Greater
    } else if e >= 1084 {
        // Magnitude at least 2^1135; a * 2^1074 is at most 2^1134.
        proof {
            let pb = pow2((e - 1) as nat) as int;
            lemma_pow2_pos((e - 1) as nat);
            lemma_pow2_adds(52, (e - 1) as nat);
            assert(0x10_0000_0000_0000 * pb <= (0x10_0000_0000_0000 + m) * pb) by (nonlinear_arith)
                requires
                    pb > 0,
            ;
            lemma_pow2_adds(60, 1074);
            lemma_mul_inequality(a as int, pow2(60) as int, pow2(1074) as int);
            if 1134 < e + 51 {
                lemma_pow2_strictly_increases(1134, (e + 51) as nat);
            }
        }
        Ordering::Less
    } else if e >= 1075 {
        // The float is the integer (2^52 + m) * 2^(e-1075); compare directly.
        let k = e - 1075;
        proof {
            lemma_pow2_pos(k as nat);
            if k < 8 {
                lemma_pow2_strictly_increases(k as nat, 8);
            }
            lemma_u64_shl_is_mul(1u64, k);
            assert((0x10_0000_0000_0000 + m) * pow2(k as nat) <= 0x1f_ffff_ffff_ffff * pow2(8))
                by (nonlinear_arith)
                requires
                    pow2(k as nat) <= pow2(8),
                    0x10_0000_0000_0000 + m <= 0x1f_ffff_ffff_ffff,
                    pow2(k as nat) > 0,
            ;
        }
        let fv = (0x10_0000_0000_0000u64 + m) * (1u64 << k);
        proof {
            // mag = fv * 2^1074: pow2(e-1) == pow2(k) * pow2(1074).
            lemma_pow2_adds(k as nat, 1074);
            assert(((0x10_0000_0000_0000 + m) * (pow2(k as nat) * pow2(1074))) == ((
            0x10_0000_0000_0000 + m) * pow2(k as nat)) * pow2(1074)) by (nonlinear_arith);
            lemma_pow2_pos(1074);
            lemma_ord_scale(a as int, fv as int, pow2(1074) as int);
            assert(mag_em(e as nat, m as nat) == fv * pow2(1074));
        }
        if a < fv {
            Ordering::Less
        } else if a > fv {
            Ordering::Greater
        } else {
            Ordering::Equal
        }
    } else {
        // e <= 1074: compare a * 2^s against 2^52 + m, where s = 1075 - e.
        let s = 1075 - e;
        proof {
            lemma_pow2_adds((s) as nat, (e - 1) as nat);
            lemma_pow2_pos((e - 1) as nat);
            assert((a * (pow2(s as nat) * pow2((e - 1) as nat))) == (a * pow2(s as nat)) * pow2(
                (e - 1) as nat,
            )) by (nonlinear_arith);
            lemma_ord_scale(a as int * pow2(s as nat) as int, (0x10_0000_0000_0000 + m) as int, pow2((e - 1) as nat) as int);
        }
        if s >= 54 {
            proof {
                lemma_pow2_strictly_increases(53, s as nat);
                lemma_mul_inequality(1, a as int, pow2(s as nat) as int);
            }
            Ordering::Greater
        } else {
            proof {
                lemma_pow2_pos(s as nat);
                if (s as nat) < 53 {
                    lemma_pow2_strictly_increases(s as nat, 53);
                }
                lemma_u64_shl_is_mul(1u64, s);
                assert(a as int * pow2(s as nat) as int <= 0x1000_0000_0000_0000 * pow2(53))
                    by (nonlinear_arith)
                    requires
                        a <= 0x1000_0000_0000_0000,
                        pow2(s as nat) <= pow2(53),
                        pow2(s as nat) > 0,
                        a >= 1,
                ;
            }
            let av = (a as u128) * ((1u64 << s) as u128);
            let fv = (0x10_0000_0000_0000u64 + m) as u128;
            if av < fv {
                Ordering::Less
            } else if av > fv {
                Ordering::Greater
            } else {
                Ordering::Equal
            }
        }
    }
}

/// Compare a small integer against a finite float.
pub fn cmp_small_float(i: i64, bits: u64) -> (r: Ordering)
    requires
        SMALL_MIN <= i <= SMALL_MAX,
        crate::model::float_finite(bits),
    ensures
        r == ord_int(i * pow2(1074), f_num(bits)),
{
    let e = (bits >> 52u64) & 0x7ffu64;
    let m = bits & 0xf_ffff_ffff_ffffu64;
    let neg_f = bits >> 63u64 == 1;
    let f_zero = e == 0 && m == 0;
    proof {
        lemma_pow2_pos(1074);
        assert(bits & 0xf_ffff_ffff_ffffu64 < 0x10_0000_0000_0000u64) by (bit_vector);
        assert(bits >> 63u64 == 0 || bits >> 63u64 == 1) by (bit_vector);
        assert((bits >> 52u64) & 0x7ffu64 <= 0x7ffu64) by (bit_vector);
        if !f_zero {
            lemma_mag_pos(e as nat, m as nat);
        }
        if i > 0 {
            lemma_mul_inequality(1, i as int, pow2(1074) as int);
        }
        if i < 0 {
            lemma_mul_inequality(i as int, -1, pow2(1074) as int);
        }
    }
    if f_zero {
        if i == 0 {
            Ordering::Equal
        } else if i < 0 {
            Ordering::Less
        } else {
            Ordering::Greater
        }
    } else if neg_f {
        if i >= 0 {
            Ordering::Greater
        } else {
            let r = rev_ord(cmp_mag_abs((-i) as u64, e, m));
            proof {
                let p = pow2(1074) as int;
                let a = ((-i) as u64) as int;
                assert(a * p == -(i as int * p)) by (nonlinear_arith)
                    requires
                        a == -(i as int),
                ;
                lemma_ord_neg(a * p, mag_em(e as nat, m as nat) as int);
            }
            r
        }
    } else {
        if i <= 0 {
            Ordering::Less
        } else {
            cmp_mag_abs(i as u64, e, m)
        }
    }
}

/// Compare a canonical bignum (outside the small range) against a finite
/// float.
pub fn cmp_big_float(b: &num::BigInt, bits: u64) -> (r: Ordering)
    requires
        big_value(*b) < SMALL_MIN || big_value(*b) > SMALL_MAX,
        crate::model::float_finite(bits),
    ensures
        r == ord_int(big_value(*b) * pow2(1074), f_num(bits)),
{
    let e = (bits >> 52u64) & 0x7ffu64;
    let m = bits & 0xf_ffff_ffff_ffffu64;
    let neg_f = bits >> 63u64 == 1;
    let f_zero = e == 0 && m == 0;
    let positive = {
        let zero = big_from_i128(0);
        match big_cmp(b, &zero) {
            Ordering::Greater => true,
            _ => false,
        }
    };
    proof {
        lemma2_to64();
        lemma2_to64_rest();
        lemma_pow2_pos(1074);
        assert(bits & 0xf_ffff_ffff_ffffu64 < 0x10_0000_0000_0000u64) by (bit_vector);
        assert(bits >> 63u64 == 0 || bits >> 63u64 == 1) by (bit_vector);
        assert((bits >> 52u64) & 0x7ffu64 <= 0x7ffu64) by (bit_vector);
        if !f_zero {
            lemma_mag_pos(e as nat, m as nat);
        }
        lemma_pow2_adds(60, 1074);
        if positive {
            lemma_mul_inequality(pow2(60) as int, big_value(*b), pow2(1074) as int);
        } else {
            lemma_mul_inequality(big_value(*b), -(pow2(60) as int), pow2(1074) as int);
            assert((-(pow2(60) as int)) * pow2(1074) == -(pow2(60) * pow2(1074) as int))
                by (nonlinear_arith);
        }
    }
    if f_zero {
        if positive {
            Ordering::Greater
        } else {
            Ordering::Less
        }
    } else if neg_f && positive {
        Ordering::Greater
    } else if !neg_f && !positive {
        Ordering::Less
    } else if e <= 1074 {
        // The float magnitude is below 2^1126 while |b| * 2^1074 exceeds
        // 2^1134: the bignum dominates.
        proof {
            let pb = pow2((e - 1) as nat) as int;
            if e >= 1 {
                lemma_pow2_pos((e - 1) as nat);
                lemma_pow2_adds(53, (e - 1) as nat);
                assert((0x10_0000_0000_0000 + m) * pb < 0x20_0000_0000_0000 * pb)
                    by (nonlinear_arith)
                    requires
                        pb > 0,
                        m < 0x10_0000_0000_0000,
                ;
                assert(mag_em(e as nat, m as nat) < pow2(53) * pb);
                assert(pow2(53) * pb == pow2((e + 52) as nat));
                lemma_pow2_strictly_increases((e + 52) as nat, 1134);
            } else {
                lemma_pow2_strictly_increases(52, 1134);
            }
        }
        if positive {
            Ordering::Greater
        } else {
            Ordering::Less
        }
    } else {
        // The float is the integer +/- (2^52 + m) * 2^(e-1075).
        let k = e - 1075;
        let base: i128 = 0x10_0000_0000_0000i128 + (m as i128);
        let signed_base = if neg_f {
            -base
        } else {
            base
        };
        let mf = big_from_i128(signed_base);
        let fv = big_shl(&mf, k);
        let r = big_cmp(b, &fv);
        proof {
            lemma_pow2_pos(k as nat);
            lemma_pow2_adds(k as nat, 1074);
            let c = (0x10_0000_0000_0000 + m) as int;
            let sc = if neg_f {
                -c
            } else {
                c
            };
            assert(big_value(fv) == sc * pow2(k as nat));
            assert((sc * pow2(k as nat)) * pow2(1074) == sc * (pow2(k as nat) * pow2(1074)))
                by (nonlinear_arith);
            assert(c * (pow2(k as nat) * pow2(1074)) == mag_em(e as nat, m as nat)) by {
                assert(pow2(k as nat) * pow2(1074) == pow2((e - 1) as nat));
            }
            assert((-c) * (pow2(k as nat) * pow2(1074)) == -(c * (pow2(k as nat) * pow2(1074))))
                by (nonlinear_arith);
            lemma_ord_scale(big_value(*b), sc * pow2(k as nat), pow2(1074) as int);
        }
        r
    }
}

/// Compare two integer term values, any mix of small and bignum, scaled.
pub proof fn lemma_int_scale(x: int, y: int)
    ensures
        ord_int(x * pow2(1074), y * pow2(1074)) == ord_int(x, y),
{
    lemma_pow2_pos(1074);
    lemma_ord_scale(x, y, pow2(1074) as int);
}

} // verus!
