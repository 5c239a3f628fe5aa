use vstd::arithmetic::power2::{lemma2_to64_rest, lemma_pow2_pos, lemma_pow2_strictly_increases, lemma_pow2_unfold, pow2};
use vstd::prelude::*;

verus! {

/// The largest integer below which every integer is a double: 2^53.
pub const EXACT_LIMIT: u64 = 0x20000000000000;

/// The position of the leading bit of `n`.
pub open spec fn log2(n: nat) -> nat
    decreases n,
{
    if n < 2 {
        0
    } else {
        1 + log2(n / 2)
    }
}

/// The 52-bit fraction field of a double whose significand is `n`: the bits
/// of `n` below its leading bit, moved to the top of the field.
pub open spec fn fraction_field(n: nat) -> nat {
    ((n - pow2(log2(n))) * pow2((52 - log2(n)) as nat)) as nat
}

/// The IEEE-754 bit pattern of the double equal to the integer `n`, for
/// `n < 2^53`: sign 0, biased exponent `log2(n) + 1023`, and the fraction.
pub open spec fn int_f64_bits(n: nat) -> nat {
    if n == 0 {
        0
    } else {
        (log2(n) + 1023) * pow2(52) + fraction_field(n)
    }
}

/// The IEEE-754 bit pattern of the double equal to `n / 2`, for `n < 2^53`:
/// as for `n`, with an exponent one lower.
pub open spec fn half_f64_bits(n: nat) -> nat {
    if n == 0 {
        0
    } else {
        (log2(n) + 1022) * pow2(52) + fraction_field(n)
    }
}

/// The position of the leading bit of `n`, and the power of two there.
fn leading_bit(n: u64) -> (r: (u64, u64))
    requires
        n > 0,
    ensures
        r.0 == log2(n as nat),
        r.1 == pow2(log2(n as nat)),
        r.1 <= n < 2 * r.1,
{
    let mut e: u64 = 0;
    let mut p: u64 = 1;
    let mut q: u64 = n;
    proof {
        lemma2_to64_rest();
        assert(pow2(0) == 1) by {
            vstd::arithmetic::power2::lemma2_to64();
        }
    }
    while q >= 2
        invariant
            1 <= q,
            p >= 1,
            p == pow2(e as nat),
            q == n / p,
            p <= n,
            log2(n as nat) == e + log2(q as nat),
            e < 64,
        decreases q,
    {
        proof {
            lemma_pow2_unfold((e + 1) as nat);
            vstd::arithmetic::div_mod::lemma_div_denominator(n as int, p as int, 2);
            vstd::arithmetic::div_mod::lemma_fundamental_div_mod(n as int, p as int);
            vstd::arithmetic::div_mod::lemma_mod_bound(n as int, p as int);
            assert(n >= 2 * p) by (nonlinear_arith)
                requires
                    n == p * (n / p) + n % p,
                    n / p >= 2,
                    n % p >= 0,
                    p >= 1,
            ;
            assert(e + 1 < 64) by {
                vstd::arithmetic::power2::lemma2_to64();
                assert(pow2((e + 1) as nat) == 2 * p);
                if e + 1 > 64 {
                    lemma_pow2_strictly_increases(64, (e + 1) as nat);
                }
            }
        }
        q = q / 2;
        p = p * 2;
        e = e + 1;
    }
    proof {
        vstd::arithmetic::div_mod::lemma_fundamental_div_mod(n as int, p as int);
        vstd::arithmetic::div_mod::lemma_mod_bound(n as int, p as int);
        assert(n < 2 * p) by (nonlinear_arith)
            requires
                n == p * (n / p) + n % p,
                n / p < 2,
                n % p < p,
                p >= 1,
        ;
    }
    (e, p)
}

/// The fraction field of `n`, given its leading bit.
fn fraction(n: u64, e: u64, p: u64) -> (m: u64)
    requires
        0 < n < EXACT_LIMIT,
        e == log2(n as nat),
        p == pow2(e as nat),
        p <= n < 2 * p,
    ensures
        m == fraction_field(n as nat),
        m < pow2(52),
{
    proof {
        lemma2_to64_rest();
        assert(e <= 52) by {
            if e >= 53 {
                if e > 53 {
                    lemma_pow2_strictly_increases(53, e as nat);
                }
            }
        }
        vstd::arithmetic::power2::lemma2_to64();
    }
    let mut m: u64 = n - p;
    let mut j: u64 = e;
    assert(pow2(0) == 1);
    assert((n - p) * pow2(0) == n - p);
    while j < 52
        invariant
            e <= j <= 52,
            m as int == (n - p) * pow2((j - e) as nat),
            m < pow2(j as nat),
            pow2(52) == 0x10000000000000,
        decreases 52 - j,
    {
        proof {
            lemma_pow2_unfold((j + 1) as nat);
            lemma_pow2_unfold((j + 1 - e) as nat);
            if j + 1 < 52 {
                lemma_pow2_strictly_increases((j + 1) as nat, 52);
            }
            assert((n - p) * pow2((j + 1 - e) as nat) == 2 * ((n - p) * pow2((j - e) as nat))) by (nonlinear_arith)
                requires
                    pow2((j + 1 - e) as nat) == 2 * pow2((j - e) as nat),
            ;
        }
        m = m * 2;
        j = j + 1;
    }
    m
}

/// The bit pattern of the double equal to `n`.
pub fn int_to_f64_bits(n: u64) -> (r: u64)
    requires
        n < EXACT_LIMIT,
    ensures
        r == int_f64_bits(n as nat),
{
    if n == 0 {
        return 0;
    }
    let (e, p) = leading_bit(n);
    let m = fraction(n, e, p);
    proof {
        lemma2_to64_rest();
        assert(e <= 52) by {
            if e > 52 {
                lemma_pow2_strictly_increases(53, e as nat);
            }
        }
    }
    (e + 1023) * 0x10000000000000 + m
}

/// The bit pattern of the double equal to `n / 2`.
pub fn half_to_f64_bits(n: u64) -> (r: u64)
    requires
        n < EXACT_LIMIT,
    ensures
        r == half_f64_bits(n as nat),
{
    if n == 0 {
        return 0;
    }
    let (e, p) = leading_bit(n);
    let m = fraction(n, e, p);
    proof {
        lemma2_to64_rest();
        assert(e <= 52) by {
            if e > 52 {
                lemma_pow2_strictly_increases(53, e as nat);
            }
        }
    }
    (e + 1022) * 0x10000000000000 + m
}

} // verus!
