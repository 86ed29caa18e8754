//! Integer arithmetic shared by the rest of the crate: powers of two, bit
//! lengths, and shifts stated as multiplication and division.

use vstd::prelude::*;
use vstd::arithmetic::power2::*;

verus! {

/// Number of bits in the binary representation of `m`; zero has none.
pub open spec fn bit_length(m: nat) -> nat
    decreases m,
{
    if m == 0 {
        0
    } else {
        1 + bit_length(m / 2)
    }
}

/// `m` with its lowest bit set when `sticky` holds.
pub open spec fn stick(m: nat, sticky: bool) -> nat {
    if sticky && m % 2 == 0 {
        m + 1
    } else {
        m
    }
}

/// `m` shifted right by `n` bits, with the lowest kept bit set when any
/// discarded bit was set.
pub open spec fn jammed(m: nat, n: nat) -> nat {
    stick(m / pow2(n), m % pow2(n) != 0)
}

/// The two values of a power of two that most proofs need.
pub proof fn lemma_pow2_step(n: nat)
    ensures
        pow2(0) == 1,
        pow2(n) > 0,
        pow2(n + 1) == 2 * pow2(n),
{
    lemma_pow2(0);
    reveal_with_fuel(vstd::arithmetic::power::pow, 2);
    lemma_pow2_pos(n);
    lemma_pow2_unfold(n + 1);
}

pub proof fn lemma_pow2_monotonic(a: nat, b: nat)
    requires
        a <= b,
    ensures
        pow2(a) <= pow2(b),
{
    if a < b {
        lemma_pow2_strictly_increases(a, b);
    }
}

/// The bit length brackets a positive number between two powers of two.
pub proof fn lemma_bit_length(m: nat)
    requires
        m > 0,
    ensures
        bit_length(m) >= 1,
        pow2((bit_length(m) - 1) as nat) <= m < pow2(bit_length(m)),
    decreases m,
{
    if m == 1 {
        reveal_with_fuel(bit_length, 3);
        lemma_pow2_step(0);
    } else {
        let h = m / 2;
        lemma_bit_length(h);
        lemma_pow2_step(bit_length(h));
        lemma_pow2_step((bit_length(h) - 1) as nat);
    }
}

/// The bracket determines the bit length.
pub proof fn lemma_bit_length_unique(m: nat, k: nat)
    requires
        pow2(k) <= m < pow2(k + 1),
    ensures
        bit_length(m) == k + 1,
{
    lemma_pow2_pos(k);
    lemma_bit_length(m);
    let b = bit_length(m);
    if b > k + 1 {
        lemma_pow2_monotonic(k + 1, (b - 1) as nat);
    }
    if b < k + 1 {
        lemma_pow2_monotonic(b, k);
    }
}

pub proof fn lemma_bit_length_le(m: nat, k: nat)
    requires
        m < pow2(k),
    ensures
        bit_length(m) <= k,
{
    if m > 0 {
        lemma_bit_length(m);
        if bit_length(m) > k {
            lemma_pow2_monotonic(k, (bit_length(m) - 1) as nat);
        }
    }
}

pub proof fn lemma_bit_length_ge(m: nat, k: nat)
    requires
        pow2(k) <= m,
    ensures
        bit_length(m) >= k + 1,
{
    lemma_pow2_pos(k);
    lemma_bit_length(m);
    if bit_length(m) < k + 1 {
        lemma_pow2_monotonic(bit_length(m), k);
    }
}

/// Appending `d` low bits lengthens a number by `d`.
pub proof fn lemma_bit_length_append(b: nat, d: nat, r: nat)
    requires
        b > 0,
        r < pow2(d),
    ensures
        bit_length(b * pow2(d) + r) == bit_length(b) + d,
{
    lemma_bit_length(b);
    let l = bit_length(b);
    let p = pow2(d);
    lemma_pow2_pos(d);
    lemma_pow2_adds((l - 1) as nat, d);
    lemma_pow2_adds(l, d);
    let lo = pow2((l - 1) as nat);
    let hi = pow2(l);
    assert(lo * p <= b * p) by (nonlinear_arith)
        requires
            lo <= b,
            p > 0,
    ;
    assert((b + 1) * p <= hi * p) by (nonlinear_arith)
        requires
            b + 1 <= hi,
            p > 0,
    ;
    assert((b + 1) * p == b * p + p) by (nonlinear_arith);
    lemma_bit_length_unique(b * p + r, (l - 1 + d) as nat);
}

/// Setting the lowest bit keeps the length.
pub proof fn lemma_bit_length_stick(m: nat, sticky: bool)
    requires
        m > 0,
    ensures
        bit_length(stick(m, sticky)) == bit_length(m),
{
    lemma_bit_length(m);
    let l = bit_length(m);
    lemma_pow2_step((l - 1) as nat);
    lemma_bit_length_unique(stick(m, sticky), (l - 1) as nat);
}

pub proof fn lemma_shl_u128(a: u128, n: u32)
    requires
        n < 128,
        a * pow2(n as nat) < 0x1_0000_0000_0000_0000_0000_0000_0000_0000,
    ensures
        a << n == a * pow2(n as nat),
    decreases n,
{
    if n == 0 {
        lemma_pow2_step(0);
        assert(a * pow2(n as nat) == a) by (nonlinear_arith)
            requires
                pow2(n as nat) == 1,
        ;
        assert(a << 0u32 == a) by (bit_vector);
    } else {
        let k: u32 = (n - 1) as u32;
        lemma_pow2_step(k as nat);
        let p = pow2(k as nat);
        assert(a * (2 * p) == 2 * (a * p)) by (nonlinear_arith);
        assert(a * p >= 0) by (nonlinear_arith);
        lemma_shl_u128(a, k);
        assert(a << n == (a << k) << 1u32 && ((a << k) < 0x8000_0000_0000_0000_0000_0000_0000_0000
            ==> (a << k) << 1u32 == 2 * (a << k))) by (bit_vector)
            requires
                0 < n < 128,
                k == n - 1,
        ;
    }
}

/// `a * 2^n` for a product that fits.
pub fn shift_left(a: u128, n: u32) -> (r: u128)
    requires
        n < 128,
        a * pow2(n as nat) < 0x1_0000_0000_0000_0000_0000_0000_0000_0000,
    ensures
        r == a * pow2(n as nat),
{
    proof {
        lemma_shl_u128(a, n);
    }
    a << n
}

/// `2^n`.
pub fn power(n: u32) -> (r: u128)
    requires
        n < 128,
    ensures
        r == pow2(n as nat),
        r > 0,
{
    proof {
        lemma_pow2_monotonic(n as nat, 127);
        lemma_pow2_pos(n as nat);
        lemma_pow2_127();
        assert(1 * pow2(n as nat) == pow2(n as nat));
    }
    shift_left(1, n)
}

pub proof fn lemma_pow2_127()
    ensures
        pow2(127) == 0x8000_0000_0000_0000_0000_0000_0000_0000,
        pow2(128) == 0x1_0000_0000_0000_0000_0000_0000_0000_0000,
        pow2(64) == 0x1_0000_0000_0000_0000,
        pow2(63) == 0x8000_0000_0000_0000,
        pow2(53) == 0x20_0000_0000_0000,
        pow2(52) == 0x10_0000_0000_0000,
        pow2(24) == 0x100_0000,
        pow2(23) == 0x80_0000,
        pow2(16) == 0x1_0000,
        pow2(32) == 0x1_0000_0000,
        pow2(0) == 1,
        pow2(1) == 2,
{
    lemma2_to64();
    lemma2_to64_rest();
    lemma_pow2_adds(64, 64);
    lemma_pow2_adds(64, 63);
}

/// `a / 2^n`, for any distance.
pub fn shift_right(a: u128, n: u32) -> (r: u128)
    ensures
        r == a as nat / pow2(n as nat),
{
    if n >= 128 {
        proof {
            lemma_pow2_127();
            lemma_pow2_monotonic(128, n as nat);
            vstd::arithmetic::div_mod::lemma_basic_div(a as int, pow2(n as nat) as int);
        }
        0
    } else {
        proof {
            vstd::bits::lemma_u128_shr_is_div(a, n as u128);
            assert(a >> n == a >> (n as u128)) by (bit_vector);
        }
        a >> n
    }
}

/// `a % 2^n`, for any distance.
pub fn low_part(a: u128, n: u32) -> (r: u128)
    ensures
        r == a as nat % pow2(n as nat),
        n < 128 ==> r < pow2(n as nat),
{
    if n >= 128 {
        proof {
            lemma_pow2_127();
            lemma_pow2_monotonic(128, n as nat);
            vstd::arithmetic::div_mod::lemma_small_mod(a as nat, pow2(n as nat));
        }
        a
    } else {
        a % power(n)
    }
}

proof fn lemma_leading_zeros(a: u64)
    ensures
        vstd::std_specs::bits::u64_leading_zeros(a) == 64 - bit_length(a as nat),
    decreases a,
{
    reveal(vstd::std_specs::bits::u64_leading_zeros);
    if a != 0 {
        lemma_leading_zeros(a / 2);
    }
}

/// Number of bits needed to write `a`.
pub fn bit_len(a: u128) -> (r: u32)
    ensures
        r == bit_length(a as nat),
        r <= 128,
{
    proof {
        lemma_pow2_127();
        lemma_bit_length_le(a as nat, 128);
    }
    let high: u64 = (a / 0x1_0000_0000_0000_0000) as u64;
    let low: u64 = (a % 0x1_0000_0000_0000_0000) as u64;
    if high == 0 {
        proof {
            lemma_leading_zeros(low);
        }
        64 - low.leading_zeros()
    } else {
        proof {
            lemma_leading_zeros(high);
            lemma_bit_length_append(high as nat, 64, low as nat);
        }
        128 - high.leading_zeros()
    }
}

/// `m >> n`, keeping in the lowest bit whether anything was lost.
pub fn jam(m: u128, n: u32) -> (r: u128)
    ensures
        r == jammed(m as nat, n as nat),
        r <= m || r == 1,
{
    let kept: u128 = shift_right(m, n);
    let lost: u128 = low_part(m, n);
    proof {
        lemma_pow2_pos(n as nat);
        vstd::arithmetic::div_mod::lemma_div_nonincreasing(m as int, pow2(n as nat) as int);
        vstd::arithmetic::div_mod::lemma_fundamental_div_mod(m as int, pow2(n as nat) as int);
        let p = pow2(n as nat) as int;
        let k = kept as int;
        assert(p * k >= k) by (nonlinear_arith)
            requires
                p >= 1,
                k >= 0,
        ;
    }
    if lost != 0 && kept % 2 == 0 {
        kept + 1
    } else {
        kept
    }
}

} // verus!
