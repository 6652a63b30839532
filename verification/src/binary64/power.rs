//! Powers of two and bit lengths of natural numbers.

use vstd::prelude::*;
use vstd::arithmetic::power2::{pow2, lemma_pow2_pos, lemma_pow2_adds, lemma_pow2_unfold, lemma_pow2_strictly_increases, lemma2_to64, lemma2_to64_rest};
use vstd::arithmetic::div_mod::lemma_fundamental_div_mod;

verus! {

/// Number of binary digits of `n`: the least `k` with `n < 2^k`.
pub open spec fn bit_length(n: nat) -> nat
    decreases n,
{
    if n == 0 {
        0
    } else {
        1 + bit_length(n / 2)
    }
}

/// `2^a <= 2^b` whenever `a <= b`.
pub proof fn lemma_pow2_monotone(a: nat, b: nat)
    requires
        a <= b,
    ensures
        pow2(a) <= pow2(b),
{
    if a < b {
        lemma_pow2_strictly_increases(a, b);
    }
}

/// `2^(a+b) == 2^a * 2^b`, and both factors are positive.
pub proof fn lemma_pow2_sum(a: nat, b: nat)
    ensures
        pow2(a + b) == pow2(a) * pow2(b),
        pow2(a) > 0,
        pow2(b) > 0,
{
    lemma_pow2_adds(a, b);
    lemma_pow2_pos(a);
    lemma_pow2_pos(b);
}

/// A positive number lies between the two powers of two that its bit length names.
pub proof fn lemma_bit_length_bounds(n: nat)
    requires
        n > 0,
    ensures
        bit_length(n) >= 1,
        pow2((bit_length(n) - 1) as nat) <= n < pow2(bit_length(n)),
    decreases n,
{
    lemma2_to64();
    if n == 1 {
        assert(bit_length(1) == 1 + bit_length(0));
    } else {
        lemma_bit_length_bounds(n / 2);
        let k = bit_length(n / 2);
        lemma_pow2_unfold(k);
        lemma_pow2_unfold(k + 1);
    }
}

/// The bit length is determined by the enclosing powers of two.
pub proof fn lemma_bit_length_unique(n: nat, k: nat)
    requires
        k >= 1,
        pow2((k - 1) as nat) <= n < pow2(k),
    ensures
        bit_length(n) == k,
{
    lemma_pow2_pos((k - 1) as nat);
    lemma_bit_length_bounds(n);
    let b = bit_length(n);
    if b < k {
        lemma_pow2_monotone(b, (k - 1) as nat);
    } else if b > k {
        lemma_pow2_monotone(k, (b - 1) as nat);
    }
}

/// A number below `2^k` has at most `k` binary digits.
pub proof fn lemma_bit_length_le(n: nat, k: nat)
    requires
        n < pow2(k),
    ensures
        bit_length(n) <= k,
{
    if n > 0 {
        lemma_bit_length_bounds(n);
        let b = bit_length(n);
        if b > k {
            lemma_pow2_monotone(k, (b - 1) as nat);
        }
    }
}

/// A number of at least `2^k` has more than `k` binary digits.
pub proof fn lemma_bit_length_gt(n: nat, k: nat)
    requires
        n >= pow2(k),
    ensures
        bit_length(n) > k,
{
    lemma_pow2_pos(k);
    lemma_bit_length_bounds(n);
    let b = bit_length(n);
    if b <= k {
        lemma_pow2_monotone(b, k);
    }
}

/// Multiplying by `2^k` appends `k` binary digits.
pub proof fn lemma_bit_length_shift_up(n: nat, k: nat)
    requires
        n > 0,
    ensures
        bit_length(n * pow2(k)) == bit_length(n) + k,
{
    lemma_bit_length_bounds(n);
    let b = bit_length(n);
    lemma_pow2_sum((b - 1) as nat, k);
    lemma_pow2_sum(b, k);
    let lo = pow2((b - 1) as nat);
    let hi = pow2(b);
    let c = pow2(k);
    assert(lo * c <= n * c < hi * c) by (nonlinear_arith)
        requires
            lo <= n < hi,
            c > 0,
    ;
    lemma_bit_length_unique(n * c, b + k);
}

/// Dividing by `2^k` removes `k` binary digits, as far as there are any.
pub proof fn lemma_bit_length_shift_down(n: nat, k: nat)
    ensures
        bit_length(n / pow2(k)) == if bit_length(n) >= k {
            (bit_length(n) - k) as nat
        } else {
            0
        },
{
    lemma_pow2_pos(k);
    let c = pow2(k);
    let q = n / c;
    lemma_fundamental_div_mod(n as int, c as int);
    if n == 0 {
        assert(q == 0);
    } else {
        lemma_bit_length_bounds(n);
        let b = bit_length(n);
        if b <= k {
            lemma_pow2_monotone(b, k);
            assert(n < c);
            assert(q == 0) by (nonlinear_arith)
                requires
                    q == n / c,
                    n < c,
                    c > 0,
            ;
        } else {
            let j = (b - k) as nat;
            lemma_pow2_sum((j - 1) as nat, k);
            lemma_pow2_sum(j, k);
            let lo = pow2((j - 1) as nat);
            let hi = pow2(j);
            // lo * c <= n < hi * c
            assert(lo <= q) by (nonlinear_arith)
                requires
                    lo * c <= n,
                    n == c * q + n % c,
                    0 <= n % c < c,
                    c > 0,
            ;
            assert(q < hi) by (nonlinear_arith)
                requires
                    n < hi * c,
                    n == c * q + n % c,
                    0 <= n % c < c,
                    c > 0,
            ;
            lemma_bit_length_unique(q, j);
        }
    }
}

/// `2^k` as a machine integer.
pub fn pow2_u128(k: u64) -> (r: u128)
    requires
        k < 127,
    ensures
        r == pow2(k as nat),
        r > 0,
{
    proof {
        lemma2_to64();
        lemma_pow2_pos(k as nat);
    }
    if k < 64 {
        proof {
            vstd::bits::lemma_u64_pow2_no_overflow(k as nat);
            vstd::bits::lemma_u64_shl_is_mul(1u64, k);
        }
        let low: u64 = 1u64 << k;
        low as u128
    } else {
        let j: u64 = k - 64;
        proof {
            vstd::bits::lemma_u64_pow2_no_overflow(j as nat);
            vstd::bits::lemma_u64_shl_is_mul(1u64, j);
            lemma_pow2_adds(j as nat, 64);
        }
        let high: u64 = 1u64 << j;
        assert(high < 0x8000_0000_0000_0000) by {
            lemma2_to64_rest();
            lemma_pow2_strictly_increases(j as nat, 63);
        }
        (high as u128) * 0x1_0000_0000_0000_0000u128
    }
}

/// The number of binary digits of `p`.
pub fn bit_len(p: u128) -> (n: u64)
    ensures
        n == bit_length(p as nat),
        n <= 128,
{
    proof {
        lemma2_to64();
        lemma_pow2_adds(64, 64);
        lemma_bit_length_le(p as nat, 128);
    }
    let mut n: u64 = 0;
    let mut q: u128 = p;
    while q > 0
        invariant
            bit_length(p as nat) == n + bit_length(q as nat),
            n + bit_length(q as nat) <= 128,
        decreases q,
    {
        q = q / 2;
        n = n + 1;
    }
    n
}

} // verus!
