//! What the operations on a single register do, said of its bits.

use vstd::prelude::*;
use vstd::arithmetic::power2::{lemma_pow2_pos, lemma_pow2_unfold, pow2};
use crate::arith;
use crate::cpu::alu;
use crate::cpu::isa::{funct3, rd, rs1, wrap};
use crate::cpu::isa;
use crate::cpu::isa_memory::{extended, lemma_extended};
use crate::cpu::{CpuBus, CpuModel};

verus! {

/// How many of the lowest `k` bits are set.
pub open spec fn bits_set(x: nat, k: nat) -> nat
    decreases k,
{
    if k == 0 {
        0
    } else {
        bits_set(x, (k - 1) as nat) + (x / pow2((k - 1) as nat)) % 2
    }
}

proof fn lemma_bits_set(x: nat, k: nat)
    ensures
        bits_set(x, k + 1) == x % 2 + bits_set(x / 2, k),
    decreases k,
{
    if k == 0 {
        reveal_with_fuel(bits_set, 2);
        vstd::arithmetic::power2::lemma2_to64();
        assert(x / 1 == x);
    } else {
        lemma_bits_set(x, (k - 1) as nat);
        let p = pow2((k - 1) as nat);
        lemma_pow2_unfold(k);
        lemma_pow2_pos((k - 1) as nat);
        vstd::arithmetic::div_mod::lemma_div_denominator(x as int, 2, p as int);
        assert(x / pow2(k) == x / 2 / p);
    }
}

proof fn lemma_ones(x: nat, k: nat)
    requires
        x < pow2(k),
    ensures
        alu::ones(x) == bits_set(x, k),
    decreases k,
{
    if k == 0 {
        vstd::arithmetic::power2::lemma2_to64();
    } else {
        lemma_pow2_unfold(k);
        lemma_bits_set(x, (k - 1) as nat);
        lemma_ones(x / 2, (k - 1) as nat);
        if x == 0 {
            assert(alu::ones(0) == 0);
        }
    }
}

proof fn lemma_low_zeros(x: nat, width: nat)
    ensures
        ({
            let n = alu::low_zeros(x, width);
            &&& n <= width
            &&& x % pow2(n) == 0
            &&& n < width ==> (x / pow2(n)) % 2 == 1
        }),
    decreases width,
{
    vstd::arithmetic::power2::lemma2_to64();
    if width == 0 || x % 2 == 1 {
        assert(x % 1 == 0 && x / 1 == x);
    } else {
        let rest = (width - 1) as nat;
        lemma_low_zeros(x / 2, rest);
        let n = alu::low_zeros(x / 2, rest);
        let p = pow2(n);
        lemma_pow2_unfold(n + 1);
        lemma_pow2_pos(n);
        vstd::arithmetic::div_mod::lemma_div_denominator(x as int, 2, p as int);
        vstd::arithmetic::div_mod::lemma_fundamental_div_mod((x / 2) as int, p as int);
        let q = x / 2 / p;
        assert(x == (2 * p) * q) by (nonlinear_arith)
            requires
                x / 2 == p * q,
                x % 2 == 0,
        ;
        vstd::arithmetic::div_mod::lemma_mod_multiples_basic(q as int, (2 * p) as int);
        assert((2 * p) * q == q * (2 * p)) by (nonlinear_arith);
    }
}

/// `CLZ`, `CTZ` and `CPOP` count the zeros above the highest one, the zeros below the
/// lowest one, and the ones; `SEXT.B` and `SEXT.H` take the low byte or halfword with
/// its sign.
pub proof fn law_single_operation<B: CpuBus>(c: CpuModel, m: B::Model, pc: u64, w: u32)
    requires
        w % 128 == 0x13,
        funct3(w) == 1,
    ensures
        ({
            let done = c.execute::<B>(m, pc, w, 4);
            let code = w as int / 0x10_0000;
            let x = c.registers[rs1(w)];
            let gives = |v: int| isa::gave(done, pc + 4, rd(w), v as u64, c, m);
            &&& code == 0x600 ==> exists|n: nat| #[trigger]
                gives(n as int) && n <= 64 && x < pow2((64 - n) as nat) && (n < 64 ==> x >= pow2(
                    (63 - n) as nat,
                ))
            &&& code == 0x601 ==> exists|n: nat| #[trigger]
                gives(n as int) && n <= 64 && x as nat % pow2(n) == 0 && (n < 64 ==> (x as nat
                    / pow2(n)) % 2 == 1)
            &&& code == 0x602 ==> gives(bits_set(x as nat, 64) as int)
            &&& code == 0x604 ==> gives(wrap(extended(x, 0x100)) as int)
            &&& code == 0x605 ==> gives(wrap(extended(x, 0x1_0000)) as int)
        }),
{
    isa::lemma_fields(w);
    isa::lemma_add(pc, 4);
    let done = c.execute::<B>(m, pc, w, 4);
    let code = w >> 20;
    let x = c.registers[rs1(w)];
    vstd::arithmetic::power2::lemma2_to64();
    vstd::arithmetic::power2::lemma2_to64_rest();
    let gives = |v: int| isa::gave(done, pc + 4, rd(w), v as u64, c, m);
    if code == 0x600 {
        arith::lemma_bit_length_le(x as nat, 64);
        let n = (64 - arith::bit_length(x as nat)) as nat;
        if x > 0 {
            arith::lemma_bit_length(x as nat);
        } else {
            reveal_with_fuel(arith::bit_length, 2);
        }
        assert(gives(n as int));
    } else if code == 0x601 {
        lemma_low_zeros(x as nat, 64);
        let n = alu::low_zeros(x as nat, 64);
        assert(gives(n as int));
    } else if code == 0x602 {
        lemma_ones(x as nat, 64);
    } else {
        lemma_extended(x);
    }
}

} // verus!
