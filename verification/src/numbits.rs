//! Bit-level model of guest floating-point numbers.
//!
//! The guest runtime's "number" kind is carried through this crate as the
//! 64-bit pattern of its IEEE-754 double (sign, 11 exponent bits, 52
//! fraction bits). No floating-point arithmetic happens here: everything the
//! boundary logic needs — equality of two numbers, equality of a number and
//! an integer, truncation toward zero — is exact integer reasoning on the
//! pattern, and is specified and verified as such.
use vstd::prelude::*;
use vstd::arithmetic::power2::{
    pow2, lemma_pow2_adds, lemma_pow2_pos, lemma_pow2_strictly_increases, lemma2_to64,
    lemma2_to64_rest,
};
use vstd::arithmetic::div_mod::lemma_basic_div;
use vstd::arithmetic::mul::lemma_mul_inequality;
use vstd::bits::{
    lemma_u64_shr_is_div, lemma_u64_shl_is_mul, lemma_u64_low_bits_mask_is_mod,
    low_bits_mask,
};

verus! {

/// Exponent field of the pattern (11 bits).
pub open spec fn nb_exp(b: u64) -> u64 {
    (b >> 52) & 0x7ff
}

/// Fraction field of the pattern (52 bits).
pub open spec fn nb_frac(b: u64) -> u64 {
    b & 0x000f_ffff_ffff_ffff
}

/// Sign bit of the pattern.
pub open spec fn nb_is_neg(b: u64) -> bool {
    (b >> 63) == 1
}

/// The pattern denotes not-a-number.
pub open spec fn nb_is_nan(b: u64) -> bool {
    nb_exp(b) == 0x7ff && nb_frac(b) != 0
}

/// The pattern denotes a finite number (neither an infinity nor
/// not-a-number).
pub open spec fn nb_is_finite(b: u64) -> bool {
    nb_exp(b) != 0x7ff
}

/// The pattern denotes a (positive or negative) zero.
pub open spec fn nb_is_zero(b: u64) -> bool {
    nb_exp(b) == 0 && nb_frac(b) == 0
}

/// Guest equality of two numbers: not-a-number equals nothing, the two
/// zeros are equal, and otherwise equal numbers have equal patterns.
pub open spec fn nb_eq(a: u64, b: u64) -> bool {
    &&& !nb_is_nan(a)
    &&& !nb_is_nan(b)
    &&& (a == b || (nb_is_zero(a) && nb_is_zero(b)))
}

/// Significand of a finite pattern, with the implicit leading bit made
/// explicit for normal numbers.
pub open spec fn nb_mantissa(b: u64) -> u64 {
    if nb_exp(b) == 0 {
        nb_frac(b)
    } else {
        (nb_frac(b) + 0x0010_0000_0000_0000) as u64
    }
}

/// Power-of-two scale of a finite pattern: its magnitude is
/// `nb_mantissa(b) * 2^nb_scale(b)`.
pub open spec fn nb_scale(b: u64) -> int {
    (if nb_exp(b) == 0 {
        1int
    } else {
        nb_exp(b) as int
    }) - 1075
}

/// Magnitude of a finite pattern truncated toward zero.
pub open spec fn nb_magnitude_trunc(b: u64) -> nat {
    if nb_scale(b) >= 0 {
        (nb_mantissa(b) * pow2(nb_scale(b) as nat)) as nat
    } else {
        nb_mantissa(b) as nat / pow2((-nb_scale(b)) as nat)
    }
}

/// Value of a finite pattern truncated toward zero.
pub open spec fn nb_trunc(b: u64) -> int {
    if nb_is_neg(b) {
        -(nb_magnitude_trunc(b) as int)
    } else {
        nb_magnitude_trunc(b) as int
    }
}

/// The pattern denotes a finite number with no fractional part.
pub open spec fn nb_is_integral(b: u64) -> bool {
    &&& nb_is_finite(b)
    &&& (nb_scale(b) >= 0 || nb_mantissa(b) as nat % pow2((-nb_scale(b)) as nat) == 0)
}

/// Guest equality of a number pattern and a guest integer: exact
/// mathematical equality, with no rounding of either side.
pub open spec fn nb_eq_int(b: u64, i: i64) -> bool {
    nb_is_integral(b) && nb_trunc(b) == i
}

/// Truncated magnitude of a finite pattern, when it fits in 64 bits,
/// together with a flag telling whether the truncation was exact.
fn nb_magnitude(b: u64) -> (r: Option<(u64, bool)>)
    ensures
        nb_is_finite(b) ==> match r {
            Some((mag, exact)) => {
                &&& mag == nb_magnitude_trunc(b)
                &&& (exact <==> nb_is_integral(b))
            },
            None => nb_magnitude_trunc(b) > u64::MAX,
        },
        !nb_is_finite(b) ==> r is None,
{
    let e: u64 = (b >> 52) & 0x7ff;
    let f: u64 = b & 0x000f_ffff_ffff_ffff;
    if e == 0x7ff {
        return None;
    }
    proof {
        assert(f < 0x0010_0000_0000_0000) by (bit_vector)
            requires
                f == b & 0x000f_ffff_ffff_ffff,
        ;
    }
    let m: u64 = if e == 0 {
        f
    } else {
        f + 0x0010_0000_0000_0000
    };
    proof {
        assert(m == nb_mantissa(b));
        assert(m < 0x0020_0000_0000_0000);
    }
    if e <= 1075 {
        // scale <= 0: divide by 2^shift.
        let eff: u64 = if e == 0 {
            1
        } else {
            e
        };
        let shift: u64 = 1075 - eff;
        proof {
            assert(nb_scale(b) == -(shift as int));
        }
        if shift >= 64 {
            proof {
                lemma2_to64();
                lemma2_to64_rest();
                lemma_pow2_strictly_increases(53, shift as nat);
                assert(m < pow2(53)) by {
                    assert(m < 0x0020_0000_0000_0000);
                }
                lemma_basic_div(m as int, pow2(shift as nat) as int);
                assert(m as nat / pow2(shift as nat) == 0) by {
                    assert(m < pow2(shift as nat));
                }
                assert(m as nat % pow2(shift as nat) == m as nat) by {
                    vstd::arithmetic::div_mod::lemma_small_mod(m as nat, pow2(shift as nat));
                }
            }
            Some((0, m == 0))
        } else {
            proof {
                lemma_u64_pow2_le_max(shift);
                lemma_u64_shl_is_mul(1u64, shift);
                lemma_pow2_pos(shift as nat);
            }
            let mag: u64 = m >> shift;
            let mask: u64 = (1u64 << shift) - 1;
            let exact: bool = (m & mask) == 0;
            proof {
                lemma_u64_shr_is_div(m, shift);
                assert(mask == low_bits_mask(shift as nat)) by {
                    assert(1u64 * pow2(shift as nat) == pow2(shift as nat));
                }
                lemma_u64_low_bits_mask_is_mod(m, shift as nat);
                assert(pow2(shift as nat) as u64 == pow2(shift as nat));
                assert(m & mask == m % (pow2(shift as nat) as u64));
                assert(exact <==> m as nat % pow2(shift as nat) == 0);
                lemma2_to64();
                if shift == 0 {
                    assert(nb_scale(b) == 0);
                    assert(pow2(0) == 1);
                    assert(mag == m as nat / 1);
                    assert(mag == m);
                    assert(nb_magnitude_trunc(b) == (m * pow2(0)) as nat);
                    assert(m * 1 == m);
                } else {
                    assert(nb_scale(b) < 0);
                }
                assert(mag == nb_magnitude_trunc(b));
                assert(exact <==> nb_is_integral(b));
            }
            Some((mag, exact))
        }
    } else {
        // scale > 0: multiply by 2^shift.
        let shift: u64 = e - 1075;
        proof {
            assert(nb_scale(b) == shift as int);
            assert(e > 0);
            assert(m >= 0x0010_0000_0000_0000);
            lemma2_to64();
                lemma2_to64_rest();
        }
        if shift > 11 {
            proof {
                lemma_pow2_adds(52, 12);
                lemma_pow2_pos(shift as nat);
                if shift > 12 {
                    lemma_pow2_strictly_increases(12, shift as nat);
                }
                assert(pow2(12) <= pow2(shift as nat));
                assert(m * pow2(shift as nat) >= 0x0010_0000_0000_0000 * pow2(12)) by {
                    lemma_mul_inequality(
                        0x0010_0000_0000_0000,
                        m as int,
                        pow2(shift as nat) as int,
                    );
                    lemma_mul_inequality(
                        pow2(12) as int,
                        pow2(shift as nat) as int,
                        0x0010_0000_0000_0000,
                    );
                    vstd::arithmetic::mul::lemma_mul_is_commutative(
                        0x0010_0000_0000_0000,
                        pow2(shift as nat) as int,
                    );
                    vstd::arithmetic::mul::lemma_mul_is_commutative(
                        0x0010_0000_0000_0000,
                        pow2(12) as int,
                    );
                }
                assert(pow2(52) == 0x0010_0000_0000_0000);
                assert(pow2(52) * pow2(12) == pow2(64));
                assert(pow2(64) == 0x1_0000_0000_0000_0000);
            }
            None
        } else {
            proof {
                if shift < 11 {
                    lemma_pow2_strictly_increases(shift as nat, 11);
                }
                assert(pow2(shift as nat) <= pow2(11));
                assert(pow2(11) == 0x800);
                assert(m * pow2(shift as nat) <= u64::MAX) by {
                    lemma_mul_inequality(
                        m as int,
                        0x0020_0000_0000_0000 - 1,
                        pow2(shift as nat) as int,
                    );
                    lemma_mul_inequality(
                        pow2(shift as nat) as int,
                        0x800,
                        0x0020_0000_0000_0000 - 1,
                    );
                    vstd::arithmetic::mul::lemma_mul_is_commutative(
                        0x0020_0000_0000_0000 - 1,
                        pow2(shift as nat) as int,
                    );
                    assert((0x0020_0000_0000_0000 - 1) * 0x800 <= u64::MAX) by (nonlinear_arith);
                }
                lemma_u64_shl_is_mul(m, shift);
            }
            let mag: u64 = m << shift;
            proof {
                assert(mag == m * pow2(shift as nat));
                assert(nb_scale(b) == shift as int);
                assert(nb_scale(b) as nat == shift as nat);
                assert(nb_magnitude_trunc(b) == (m * pow2(shift as nat)) as nat);
            }
            Some((mag, true))
        }
    }
}

/// Proof that `pow2(shift)` fits in a `u64` when `shift < 64`.
proof fn lemma_u64_pow2_le_max(shift: u64)
    requires
        shift < 64,
    ensures
        pow2(shift as nat) <= u64::MAX,
        1 * pow2(shift as nat) <= u64::MAX,
{
    lemma2_to64();
                lemma2_to64_rest();
    if shift < 63 {
        lemma_pow2_strictly_increases(shift as nat, 63);
    }
    assert(pow2(63) == 0x8000_0000_0000_0000);
}

/// Truncates the guest number toward zero, when the result fits a guest
/// integer; mirrors the host-side narrowing used by the conversion
/// protocol.
pub fn nb_trunc_i64(b: u64) -> (r: Option<i64>)
    ensures
        match r {
            Some(i) => nb_is_finite(b) && nb_trunc(b) == i,
            None => !nb_is_finite(b) || nb_trunc(b) < i64::MIN || nb_trunc(b) > i64::MAX,
        },
{
    match nb_magnitude(b) {
        None => None,
        Some((mag, _)) => nb_signed(b, mag),
    }
}

/// The exact integer value of the guest number, when it is integral and
/// fits a guest integer.
pub fn nb_exact_i64(b: u64) -> (r: Option<i64>)
    ensures
        match r {
            Some(i) => nb_is_integral(b) && nb_trunc(b) == i,
            None => !nb_is_integral(b) || nb_trunc(b) < i64::MIN || nb_trunc(b) > i64::MAX,
        },
{
    match nb_magnitude(b) {
        None => None,
        Some((mag, exact)) => {
            if exact {
                nb_signed(b, mag)
            } else {
                None
            }
        },
    }
}

/// Applies the pattern's sign to a truncated magnitude, range-checked
/// against the guest integer type.
fn nb_signed(b: u64, mag: u64) -> (r: Option<i64>)
    requires
        nb_is_finite(b),
        mag == nb_magnitude_trunc(b),
    ensures
        match r {
            Some(i) => nb_trunc(b) == i,
            None => nb_trunc(b) < i64::MIN || nb_trunc(b) > i64::MAX,
        },
{
    let neg: bool = (b >> 63) == 1;
    if neg {
        if mag <= 0x8000_0000_0000_0000 {
            if mag == 0x8000_0000_0000_0000 {
                Some(i64::MIN)
            } else {
                Some(-(mag as i64))
            }
        } else {
            None
        }
    } else {
        if mag <= 0x7fff_ffff_ffff_ffff {
            Some(mag as i64)
        } else {
            None
        }
    }
}

/// Guest equality of two number patterns.
pub fn nb_eq_exec(a: u64, b: u64) -> (r: bool)
    ensures
        r == nb_eq(a, b),
{
    let ea: u64 = (a >> 52) & 0x7ff;
    let fa: u64 = a & 0x000f_ffff_ffff_ffff;
    let eb: u64 = (b >> 52) & 0x7ff;
    let fb: u64 = b & 0x000f_ffff_ffff_ffff;
    let nan_a = ea == 0x7ff && fa != 0;
    let nan_b = eb == 0x7ff && fb != 0;
    let zero_a = ea == 0 && fa == 0;
    let zero_b = eb == 0 && fb == 0;
    !nan_a && !nan_b && (a == b || (zero_a && zero_b))
}

/// Guest equality of a number pattern and a guest integer.
pub fn nb_eq_int_exec(b: u64, i: i64) -> (r: bool)
    ensures
        r == nb_eq_int(b, i),
{
    match nb_exact_i64(b) {
        Some(j) => j == i,
        None => false,
    }
}

} // verus!
