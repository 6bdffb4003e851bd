//! The integer part of an IEEE-754 binary float, read from its bits.

use vstd::prelude::*;
use vstd::arithmetic::power2::{
    lemma2_to64, lemma2_to64_rest, lemma_pow2_adds, lemma_pow2_strictly_increases,
    lemma_pow2_unfold, pow2,
};

verus! {

/// `v` clamped to the range of `i64`.
pub open spec fn saturate(v: int) -> i64 {
    if v > i64::MAX {
        i64::MAX
    } else if v < i64::MIN {
        i64::MIN
    } else {
        v as i64
    }
}

/// The magnitude of a finite float with biased exponent `e`, fraction `m`,
/// `mbits` fraction bits and exponent bias `bias`, truncated toward zero.
/// Subnormals (`e == 0`) share the exponent of the smallest normal numbers.
pub open spec fn trunc_magnitude(e: nat, m: nat, mbits: nat, bias: nat) -> nat {
    let sig: nat = if e == 0 {
        m
    } else {
        pow2(mbits) + m
    };
    let shift: int = (if e == 0 {
        1
    } else {
        e as int
    }) - bias - mbits;
    if shift >= 0 {
        sig * pow2(shift as nat)
    } else {
        sig / pow2((-shift) as nat)
    }
}

/// The float with `ebits` exponent bits and `mbits` fraction bits held in
/// `bits`, truncated toward zero and clamped to `i64`; not-a-number gives 0.
pub open spec fn trunc_bits(bits: nat, ebits: nat, mbits: nat) -> i64 {
    let m = bits % pow2(mbits);
    let e = (bits / pow2(mbits)) % pow2(ebits);
    let neg = bits / pow2(mbits + ebits) != 0;
    let bias = (pow2((ebits - 1) as nat) - 1) as nat;
    if e == pow2(ebits) - 1 {
        if m != 0 {
            0
        } else if neg {
            i64::MIN
        } else {
            i64::MAX
        }
    } else {
        let mag = trunc_magnitude(e, m, mbits, bias);
        saturate(
            if neg {
                -mag
            } else {
                mag as int
            },
        )
    }
}

/// `2` raised to `n`.
fn pow2_exec(n: u64) -> (r: u64)
    requires
        n < 64,
    ensures
        r == pow2(n as nat),
{
    let mut r: u64 = 1;
    let mut i: u64 = 0;
    proof {
        lemma2_to64();
    }
    while i < n
        invariant
            i <= n < 64,
            r == pow2(i as nat),
        decreases n - i,
    {
        proof {
            lemma_pow2_unfold((i + 1) as nat);
            lemma_pow2_strictly_increases((i + 1) as nat, 64);
            lemma2_to64();
        }
        r = r * 2;
        i = i + 1;
    }
    r
}

/// The float held in the low `1 + ebits + mbits` bits of `bits`, truncated
/// toward zero and clamped to `i64`, for single (8, 23) or double (11, 52)
/// precision.
pub fn trunc_float_bits(bits: u64, ebits: u64, mbits: u64) -> (r: i64)
    requires
        (ebits == 8 && mbits == 23) || (ebits == 11 && mbits == 52),
        bits < pow2((1 + ebits + mbits) as nat),
    ensures
        r == trunc_bits(bits as nat, ebits as nat, mbits as nat),
{
    proof {
        lemma2_to64();
        lemma2_to64_rest();
        lemma_pow2_adds(mbits as nat, ebits as nat);
        lemma_pow2_adds((mbits + ebits) as nat, 1);
    }
    let pm = pow2_exec(mbits);
    let pe = pow2_exec(ebits);
    let m = bits % pm;
    let e = (bits / pm) % pe;
    let neg = bits / pow2_exec(mbits + ebits) != 0;
    let bias = pow2_exec(ebits - 1) - 1;
    if e == pe - 1 {
        return if m != 0 {
            0
        } else if neg {
            i64::MIN
        } else {
            i64::MAX
        };
    }
    let sig = if e == 0 {
        m
    } else {
        pm + m
    };
    let e1 = if e == 0 {
        1
    } else {
        e
    };
    assert(sig < pow2((mbits + 1) as nat)) by {
        lemma_pow2_unfold((mbits + 1) as nat);
    }
    let ghost mag = trunc_magnitude(e as nat, m as nat, mbits as nat, bias as nat);
    let r: i64 = if e1 >= bias + mbits {
        let shift = e1 - bias - mbits;
        if shift >= 63 - mbits {
            proof {
                assert(sig >= pow2(mbits as nat));
                lemma_pow2_adds(mbits as nat, shift as nat);
                if shift > 63 - mbits {
                    lemma_pow2_strictly_increases(63, (mbits + shift) as nat);
                }
                assert(mag == sig * pow2(shift as nat));
                assert(sig * pow2(shift as nat) >= pow2(mbits as nat) * pow2(shift as nat))
                    by (nonlinear_arith)
                    requires
                        sig >= pow2(mbits as nat),
                ;
            }
            if neg {
                i64::MIN
            } else {
                i64::MAX
            }
        } else {
            let p = pow2_exec(shift);
            proof {
                lemma_pow2_adds((mbits + 1) as nat, shift as nat);
                if mbits + 1 + shift < 63 {
                    lemma_pow2_strictly_increases((mbits + 1 + shift) as nat, 63);
                }
                assert(sig * p < pow2((mbits + 1) as nat) * p) by (nonlinear_arith)
                    requires
                        sig < pow2((mbits + 1) as nat),
                        p > 0,
                ;
            }
            let mag_exec = sig * p;
            if neg {
                -(mag_exec as i64)
            } else {
                mag_exec as i64
            }
        }
    } else {
        let rs = bias + mbits - e1;
        if rs >= 64 {
            proof {
                lemma_pow2_strictly_increases(53, rs as nat);
                assert(sig < pow2(rs as nat));
                assert((sig as nat) / pow2(rs as nat) == 0) by (nonlinear_arith)
                    requires
                        sig < pow2(rs as nat),
                ;
            }
            0
        } else {
            let p = pow2_exec(rs);
            let mag_exec = sig / p;
            if neg {
                -(mag_exec as i64)
            } else {
                mag_exec as i64
            }
        }
    };
    r
}

} // verus!
