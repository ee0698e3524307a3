//! Whole numbers as they travel in a double-precision wire scalar.
//!
//! A double is handled here by its 64-bit pattern: one sign bit, eleven
//! exponent bits, fifty-two fraction bits. Turning the pattern into the
//! scalar and back is left to the caller.
use vstd::arithmetic::div_mod::{lemma_div_multiples_vanish, lemma_mod_multiples_basic};
use vstd::arithmetic::power2::{
    lemma2_to64,
    lemma2_to64_rest,
    lemma_pow2_pos,
    lemma_pow2_strictly_increases,
    lemma_pow2_unfold,
    pow2,
};
use vstd::prelude::*;

verus! {

/// Two to the power 52: the weight of the hidden bit of a double.
pub const HIDDEN_BIT: u64 = 0x10_0000_0000_0000;

/// Two to the power 53: up to here every whole number is a double.
pub const EXACT_LIMIT: u64 = 0x20_0000_0000_0000;

/// Two to the power 63: the weight of the sign bit of a double.
pub const SIGN_BIT: u64 = 0x8000_0000_0000_0000;

/// The exponent field of the doubles from one up to, not including, two.
pub const EXPONENT_BIAS: u64 = 1023;

/// The exponent field at which the fraction's last bit weighs one.
pub const EXPONENT_UNIT: u64 = 1075;

/// The sign of a double: 1 where it is set.
pub open spec fn sign_field(bits: u64) -> int {
    bits as int / SIGN_BIT as int
}

/// The exponent field of a double.
pub open spec fn exponent_field(bits: u64) -> int {
    (bits as int / HIDDEN_BIT as int) % 2048
}

/// The fraction field of a double.
pub open spec fn fraction_field(bits: u64) -> int {
    bits as int % HIDDEN_BIT as int
}

/// The whole number, zero or more, that a double is; `None` where it is
/// negative, has a fractional part, is infinite or is not a number.
pub open spec fn whole_number(bits: u64) -> Option<int> {
    let e = exponent_field(bits);
    let f = fraction_field(bits);
    let m = HIDDEN_BIT as int + f;
    if e == 0 && f == 0 {
        Some(0)
    } else if sign_field(bits) == 1 || e == 0 || e == 2047 {
        None
    } else if e >= EXPONENT_UNIT as int {
        Some(m * pow2((e - EXPONENT_UNIT as int) as nat))
    } else if m % (pow2((EXPONENT_UNIT as int - e) as nat) as int) == 0 {
        Some(m / (pow2((EXPONENT_UNIT as int - e) as nat) as int))
    } else {
        None
    }
}

/// The whole number that the double nearest to `n` is, for `n` below two
/// to the power 54: `n` itself up to two to the power 53, above that the
/// nearest even number, and of two equally near ones the one whose half is
/// even.
pub open spec fn nearest_whole(n: int) -> int {
    if n <= EXACT_LIMIT as int || n % 2 == 0 {
        n
    } else if (n / 2) % 2 == 0 {
        n - 1
    } else {
        n + 1
    }
}

/// Whether `bits` is the double, with a clear sign, that is nearest to `n`.
pub open spec fn is_double_of(n: int, bits: u64) -> bool {
    &&& bits < SIGN_BIT
    &&& whole_number(bits) == Some(nearest_whole(n))
}

/// What reading a double gives under a limit: the whole number that it is,
/// where it is one and not above the limit.
pub open spec fn whole_number_up_to(bits: u64, limit: int) -> Option<u64> {
    match whole_number(bits) {
        Some(n) => if 0 <= n <= limit {
            Some(n as u64)
        } else {
            None
        },
        None => None,
    }
}

/// Reads a whole number from a double. It has to be one, and not above
/// `limit`, which is below two to the power 54.
pub fn read_whole(bits: u64, limit: u64) -> (n: Option<u64>)
    requires
        limit < 2 * EXACT_LIMIT,
    ensures
        n == whole_number_up_to(bits, limit as int),
        n matches Some(v) ==> v <= limit,
{
    proof {
        lemma2_to64();
        lemma2_to64_rest();
    }
    if bits % SIGN_BIT == 0 {
        return Some(0);
    }
    if bits >= SIGN_BIT {
        return None;
    }
    let e: u64 = bits / HIDDEN_BIT;
    let f: u64 = bits % HIDDEN_BIT;
    let m: u64 = HIDDEN_BIT + f;
    assert(e == exponent_field(bits) && f == fraction_field(bits) && sign_field(bits) == 0);
    if e < EXPONENT_BIAS {
        proof {
            if e != 0 {
                let s = (EXPONENT_UNIT - e) as nat;
                if s > 53 {
                    lemma_pow2_strictly_increases(53, s);
                }
                assert(m < pow2(s));
                assert(m as int % (pow2(s) as int) == m) by (nonlinear_arith)
                    requires
                        0 <= m < pow2(s),
                ;
            }
        }
        return None;
    }
    if e > EXPONENT_UNIT + 1 {
        proof {
            if e != 2047 {
                let s = (e - EXPONENT_UNIT) as nat;
                if s > 2 {
                    lemma_pow2_strictly_increases(2, s);
                }
                assert(m * pow2(s) > limit) by (nonlinear_arith)
                    requires
                        m >= HIDDEN_BIT,
                        pow2(s) >= 4,
                        limit < 2 * EXACT_LIMIT,
                ;
            }
        }
        return None;
    }
    let n: u64 = if e == EXPONENT_UNIT + 1 {
        m * 2
    } else if e == EXPONENT_UNIT {
        m
    } else {
        let shift: u64 = EXPONENT_UNIT - e;
        let unit: u64 = 1u64 << shift;
        proof {
            lemma_pow2_strictly_increases(shift as nat, 53);
            vstd::bits::lemma_u64_shl_is_mul(1, shift);
            lemma_pow2_pos(shift as nat);
        }
        assert(unit == pow2(shift as nat));
        if m % unit != 0 {
            return None;
        }
        m / unit
    };
    assert(whole_number(bits) == Some(n as int));
    if n <= limit {
        Some(n)
    } else {
        None
    }
}

/// Writes a whole number below two to the power 54 as the double nearest
/// to it.
pub fn write_whole(n: u64) -> (bits: u64)
    requires
        n < 2 * EXACT_LIMIT,
    ensures
        is_double_of(n as int, bits),
{
    proof {
        lemma2_to64();
        lemma2_to64_rest();
    }
    if n == 0 {
        return 0;
    }
    if n >= EXACT_LIMIT {
        let half: u64 = n / 2;
        let m: u64 = if n % 2 == 1 && half % 2 == 1 {
            half + 1
        } else {
            half
        };
        assert(2 * m == nearest_whole(n as int));
        if m == EXACT_LIMIT {
            let bits: u64 = (EXPONENT_UNIT + 2) * HIDDEN_BIT;
            assert(exponent_field(bits) == EXPONENT_UNIT + 2 && fraction_field(bits) == 0);
            assert(HIDDEN_BIT * pow2(2) == 2 * m) by (nonlinear_arith)
                requires
                    pow2(2) == 4,
                    m == 2 * HIDDEN_BIT,
            ;
            return bits;
        }
        let bits: u64 = (EXPONENT_UNIT + 1) * HIDDEN_BIT + (m - HIDDEN_BIT);
        assert(exponent_field(bits) == EXPONENT_UNIT + 1 && fraction_field(bits) == m
            - HIDDEN_BIT);
        assert(m * pow2(1) == 2 * m) by (nonlinear_arith)
            requires
                pow2(1) == 2,
        ;
        return bits;
    }
    let mut m: u64 = n;
    let mut e: u64 = EXPONENT_UNIT;
    assert(n * pow2(0) == n) by (nonlinear_arith)
        requires
            pow2(0) == 1,
    ;
    while m < HIDDEN_BIT
        invariant
            0 < n < EXACT_LIMIT,
            0 < m < EXACT_LIMIT,
            EXPONENT_BIAS <= e <= EXPONENT_UNIT,
            m == n * pow2((EXPONENT_UNIT - e) as nat),
            pow2(0) == 1,
            pow2(52) == HIDDEN_BIT,
        decreases e,
    {
        proof {
            let s = (EXPONENT_UNIT - e) as nat;
            if s >= 52 {
                if s > 52 {
                    lemma_pow2_strictly_increases(52, s);
                }
                assert(n * pow2(s) >= HIDDEN_BIT) by (nonlinear_arith)
                    requires
                        n >= 1,
                        pow2(s) >= HIDDEN_BIT,
                ;
            }
            lemma_pow2_unfold(s + 1);
            assert(n * (2 * pow2(s)) == 2 * (n * pow2(s))) by (nonlinear_arith);
        }
        m = m * 2;
        e = e - 1;
    }
    let bits: u64 = e * HIDDEN_BIT + (m - HIDDEN_BIT);
    assert(exponent_field(bits) == e && fraction_field(bits) == m - HIDDEN_BIT);
    proof {
        let s = (EXPONENT_UNIT - e) as nat;
        lemma_pow2_pos(s);
        lemma_mod_multiples_basic(n as int, pow2(s) as int);
        lemma_div_multiples_vanish(n as int, pow2(s) as int);
        assert(n * pow2(s) == pow2(s) * n) by (nonlinear_arith);
    }
    bits
}

/// A whole number up to two to the power 53 that is written as a double
/// and read back under a limit that admits it is itself again.
pub proof fn lemma_written_reads_back(n: u64, bits: u64, limit: u64)
    requires
        n <= limit <= EXACT_LIMIT,
        is_double_of(n as int, bits),
    ensures
        whole_number_up_to(bits, limit as int) == Some(n),
{
}

} // verus!
