//! Double-precision bit patterns built from integer ratios.
//!
//! The destination format stores every scalar metadata field as the 8-byte
//! big-endian encoding of a double-precision value, and every such value
//! here is an integer ratio: a timestamp over 1000, 9000 over a timestamp
//! sum, or a plain integer.  The bit pattern of the correctly rounded
//! (round-half-even) quotient is constructed in pure integer arithmetic.

use vstd::prelude::*;

use vstd::arithmetic::div_mod::{
    lemma_div_is_ordered, lemma_div_multiples_vanish, lemma_fundamental_div_mod,
};
use vstd::arithmetic::power2::{
    lemma2_to64, lemma2_to64_rest, lemma_pow2_strictly_increases, lemma_pow2_unfold, pow2,
};

verus! {

/// The normalized fraction for `a >= b > 0`: doubles `b` until
/// `b' <= a < 2 * b'`, keeping the quotient.
pub open spec fn norm_up(a: nat, b: nat) -> (nat, nat)
    decreases a - b,
{
    if b == 0 {
        (a, b)
    } else if a < 2 * b {
        (a, b)
    } else {
        norm_up(a, 2 * b)
    }
}

/// The binary exponent found alongside [`norm_up`].
pub open spec fn exp_up(a: nat, b: nat) -> int
    decreases a - b,
{
    if b == 0 {
        0
    } else if a < 2 * b {
        0
    } else {
        1 + exp_up(a, 2 * b)
    }
}

/// The normalized fraction for `0 < a < b`: doubles `a` until
/// `b <= a' < 2 * b`, keeping the quotient.
pub open spec fn norm_down(a: nat, b: nat) -> (nat, nat)
    decreases b - a,
{
    if a == 0 {
        (a, b)
    } else if 2 * a >= b {
        (2 * a, b)
    } else {
        norm_down(2 * a, b)
    }
}

/// The binary exponent found alongside [`norm_down`].
pub open spec fn exp_down(a: nat, b: nat) -> int
    decreases b - a,
{
    if a == 0 {
        0
    } else if 2 * a >= b {
        -1
    } else {
        -1 + exp_down(2 * a, b)
    }
}

/// Integer division rounded to nearest, ties to even.
pub open spec fn rounded_div(n: nat, d: nat) -> nat
    recommends
        d > 0,
{
    let q = n / d;
    let r = n % d;
    if 2 * r > d || (2 * r == d && q % 2 == 1) {
        q + 1
    } else {
        q
    }
}

/// The 64 bits of the double-precision value closest to `(-1)^neg * a / b`
/// (ties to even), for `a, b < 2^64`: sign, biased exponent, and the
/// rounded 52-bit mantissa of the normalized fraction.  A zero numerator
/// gives a (signed) zero, a zero denominator the (signed) infinity.
#[verifier::opaque]
pub open spec fn spec_double_bits(neg: bool, a: nat, b: nat) -> u64 {
    let s: int = if neg {
        0x8000000000000000
    } else {
        0
    };
    if a == 0 {
        s as u64
    } else if b == 0 {
        (s + 0x7FF0000000000000) as u64
    } else {
        let np = if a >= b {
            norm_up(a, b)
        } else {
            norm_down(a, b)
        };
        let e = if a >= b {
            exp_up(a, b)
        } else {
            exp_down(a, b)
        };
        let m = rounded_div(np.0 * 0x10000000000000, np.1);
        let m2: nat = if m == 0x20000000000000 {
            0x10000000000000
        } else {
            m
        };
        let e2: int = if m == 0x20000000000000 {
            e + 1
        } else {
            e
        };
        (s + (e2 + 1023) * 0x10000000000000 + m2 - 0x10000000000000) as u64
    }
}

/// Builds the double-precision bit pattern of `(-1)^neg * num / den`.
pub fn double_bits_of_ratio(neg: bool, num: u64, den: u64) -> (r: u64)
    ensures
        r == spec_double_bits(neg, num as nat, den as nat),
{
    proof {
        reveal(spec_double_bits);
    }
    let sign: u64 = if neg {
        0x8000000000000000
    } else {
        0
    };
    if num == 0 {
        return sign;
    }
    if den == 0 {
        return sign + 0x7FF0000000000000;
    }
    let mut ap: u128 = num as u128;
    let mut bp: u128 = den as u128;
    let mut e: i64 = 0;
    proof {
        lemma2_to64();
    }
    if num >= den {
        while ap >= 2 * bp
            invariant
                num >= den >= 1,
                1 <= bp <= ap,
                ap == num as nat,
                ap < 0x10000000000000000,
                0 <= e <= 63,
                pow2(e as nat) <= bp,
                exp_up(num as nat, den as nat) == e + exp_up(ap as nat, bp as nat),
                norm_up(num as nat, den as nat) == norm_up(ap as nat, bp as nat),
            decreases ap - bp,
        {
            proof {
                assert(e <= 62) by {
                    if e > 62 {
                        if e > 63 {
                            lemma_pow2_strictly_increases(63, e as nat);
                        }
                        lemma2_to64_rest();
                        assert(pow2(63) <= bp);
                        assert(2 * bp <= ap);
                    }
                }
                lemma_pow2_unfold((e + 1) as nat);
            }
            bp = 2 * bp;
            e = e + 1;
        }
        proof {
            assert(exp_up(ap as nat, bp as nat) == 0);
            assert(norm_up(ap as nat, bp as nat) == (ap as nat, bp as nat));
        }
    } else {
        while 2 * ap < bp
            invariant
                1 <= num < den,
                bp == den as nat,
                1 <= ap < bp,
                bp < 0x10000000000000000,
                -63 <= e <= 0,
                pow2((-e) as nat) <= ap,
                exp_down(num as nat, den as nat) == e + exp_down(ap as nat, bp as nat),
                norm_down(num as nat, den as nat) == norm_down(ap as nat, bp as nat),
            decreases bp - ap,
        {
            proof {
                assert(-e <= 62) by {
                    if -e > 62 {
                        if -e > 63 {
                            lemma_pow2_strictly_increases(63, (-e) as nat);
                        }
                        lemma2_to64_rest();
                        assert(pow2(63) <= ap);
                        assert(2 * ap < bp);
                    }
                }
                lemma_pow2_unfold((-(e - 1)) as nat);
            }
            ap = 2 * ap;
            e = e - 1;
        }
        proof {
            assert(exp_down(ap as nat, bp as nat) == -1);
            assert(norm_down(ap as nat, bp as nat) == (2 * ap as nat, bp as nat));
        }
        ap = 2 * ap;
        e = e - 1;
    }
    // Now bp <= ap < 2 * bp, the pair equals the spec's normalized
    // fraction, and e the spec's exponent, with -64 <= e <= 63.
    let n: u128 = ap * 0x10000000000000;
    let q: u128 = n / bp;
    let rr: u128 = n % bp;
    proof {
        lemma_div_multiples_vanish(0x10000000000000, bp as int);
        lemma_div_is_ordered((bp * 0x10000000000000) as int, n as int, bp as int);
        assert((bp * 0x10000000000000) as int / (bp as int) == 0x10000000000000int) by {
            assert(bp * 0x10000000000000 == 0x10000000000000 * bp) by (nonlinear_arith);
        }
        lemma_fundamental_div_mod(n as int, bp as int);
        assert(q < 0x20000000000000) by {
            assert(n < bp * 0x20000000000000) by (nonlinear_arith)
                requires
                    ap < 2 * bp,
                    n == ap * 0x10000000000000,
            ;
            if q >= 0x20000000000000 {
                assert(n as int == bp * q + rr);
                assert(bp * q >= bp * 0x20000000000000) by (nonlinear_arith)
                    requires
                        q >= 0x20000000000000,
                        bp >= 1,
                ;
            }
        }
    }
    let m: u128 = if 2 * rr > bp || (2 * rr == bp && q % 2 == 1) {
        q + 1
    } else {
        q
    };
    proof {
        assert(m == rounded_div((ap * 0x10000000000000) as nat, bp as nat));
        assert(0x10000000000000 <= m <= 0x20000000000000);
    }
    let (m2, e2): (u128, i64) = if m == 0x20000000000000 {
        (0x10000000000000, e + 1)
    } else {
        (m, e)
    };
    let biased: u64 = (e2 + 1023) as u64;
    sign + biased * 0x10000000000000 + (m2 as u64 - 0x10000000000000)
}

} // verus!
