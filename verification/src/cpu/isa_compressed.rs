//! What compressed instructions do: each has the effect of a longer instruction
//! on registers and offsets that its sixteen bits name.

use vstd::prelude::*;
use vstd::arithmetic::power2::pow2;
use crate::cpu::compressed::{
    alu_result,
    branch_offset,
    compact_field,
    field,
    full_field,
    jump_offset,
    memory_offset,
    six_bit_immediate,
    six_bit_shift,
    stack_address_offset,
    stack_load_offset,
    stack_move_offset,
    stack_store_offset,
    upper_immediate,
};
use crate::cpu::isa::{number, word_number, wrap};
use crate::cpu::isa;
use crate::cpu::isa_memory::{extended, lemma_extended, loaded, width_of};
use crate::cpu::mmu::Access;
use crate::cpu::{Control, CpuBus, CpuModel, Exception, InstructionOutcome, Trap};

verus! {

/// A field of sixteen bits.
#[verifier::opaque]
pub open spec fn part(h: u16, start: int, count: int) -> int {
    (h as int / start) % count
}

/// A number from -32 to 31.
pub open spec fn small_number(h: u16) -> int {
    part(h, 4, 32) - 32 * part(h, 0x1000, 2)
}

/// A distance from 0 to 63.
pub open spec fn distance(h: u16) -> int {
    part(h, 4, 32) + 32 * part(h, 0x1000, 2)
}

/// The offset of `C.J`: even, within two kibibytes.
pub open spec fn jump_distance(h: u16) -> int {
    2 * part(h, 8, 8) + 16 * part(h, 0x800, 2) + 32 * part(h, 4, 2) + 64 * part(h, 0x80, 2) + 128
        * part(h, 0x40, 2) + 256 * part(h, 0x200, 4) + 1024 * part(h, 0x100, 2) - 2048 * part(
        h,
        0x1000,
        2,
    )
}

/// The offset of `C.BEQZ` and `C.BNEZ`: even, within 256 bytes.
pub open spec fn branch_distance(h: u16) -> int {
    2 * part(h, 8, 4) + 8 * part(h, 0x400, 4) + 32 * part(h, 4, 2) + 64 * part(h, 0x20, 4) - 256
        * part(h, 0x1000, 2)
}

/// The offset of `C.ADDI4SPN`: a multiple of four.
pub open spec fn from_stack(h: u16) -> int {
    4 * part(h, 0x40, 2) + 8 * part(h, 0x20, 2) + 16 * part(h, 0x800, 4) + 64 * part(h, 0x80, 16)
}

/// The offset of `C.ADDI16SP`: a multiple of sixteen.
pub open spec fn stack_distance(h: u16) -> int {
    16 * part(h, 0x40, 2) + 32 * part(h, 4, 2) + 64 * part(h, 0x20, 2) + 128 * part(h, 8, 4) - 512
        * part(h, 0x1000, 2)
}

/// The offset of `C.LW`, `C.SW` (a multiple of four), `C.LD` and `C.SD` (of eight).
pub open spec fn memory_distance(h: u16, double: bool) -> int {
    if double {
        8 * part(h, 0x400, 8) + 64 * part(h, 0x20, 4)
    } else {
        4 * part(h, 0x40, 2) + 8 * part(h, 0x400, 8) + 64 * part(h, 0x20, 2)
    }
}

/// The offset of `C.LWSP` and `C.LDSP`.
pub open spec fn stack_load_distance(h: u16, double: bool) -> int {
    if double {
        8 * part(h, 0x20, 4) + 32 * part(h, 0x1000, 2) + 64 * part(h, 4, 8)
    } else {
        4 * part(h, 0x10, 8) + 32 * part(h, 0x1000, 2) + 64 * part(h, 4, 4)
    }
}

/// The offset of `C.SWSP` and `C.SDSP`.
pub open spec fn stack_store_distance(h: u16, double: bool) -> int {
    if double {
        8 * part(h, 0x400, 8) + 64 * part(h, 0x80, 8)
    } else {
        4 * part(h, 0x200, 16) + 64 * part(h, 0x80, 4)
    }
}

/// The register that five bits name, and the two that three bits name.
pub open spec fn wide(h: u16) -> int {
    part(h, 0x80, 32)
}

pub open spec fn second(h: u16) -> int {
    part(h, 4, 32)
}

pub open spec fn high(h: u16) -> int {
    8 + part(h, 0x80, 8)
}

pub open spec fn low(h: u16) -> int {
    8 + part(h, 4, 8)
}

proof fn lemma_part(h: u16, start: int, count: int)
    requires
        count > 0,
    ensures
        0 <= part(h, start, count) < count,
{
    reveal(part);
}

/// The offsets, with what stands for a sign apart.
proof fn lemma_bits(h: u16)
    ensures
        ({
            let sign = |above: int|
                if part(h, 0x1000, 2) == 0 {
                    0
                } else {
                    0x1_0000_0000_0000_0000 - above
                };
            &&& six_bit_immediate(h) == part(h, 4, 32) + sign(32)
            &&& six_bit_shift(h) == distance(h)
            &&& jump_offset(h) == jump_distance(h) + 2048 * part(h, 0x1000, 2) + sign(2048)
            &&& branch_offset(h) == branch_distance(h) + 256 * part(h, 0x1000, 2) + sign(256)
            &&& stack_address_offset(h) == from_stack(h)
            &&& stack_move_offset(h) == stack_distance(h) + 512 * part(h, 0x1000, 2) + sign(512)
            &&& upper_immediate(h) == 4096 * part(h, 4, 32) + sign(0x2_0000)
            &&& memory_offset(h, true) == memory_distance(h, true)
            &&& memory_offset(h, false) == memory_distance(h, false)
            &&& stack_load_offset(h, true) == stack_load_distance(h, true)
            &&& stack_load_offset(h, false) == stack_load_distance(h, false)
            &&& stack_store_offset(h, true) == stack_store_distance(h, true)
            &&& stack_store_offset(h, false) == stack_store_distance(h, false)
            &&& h >> 13 == part(h, 0x2000, 8)
            &&& full_field(h, 7) == wide(h)
            &&& full_field(h, 2) == second(h)
            &&& compact_field(h, 7) == high(h)
            &&& compact_field(h, 2) == low(h)
            &&& field(h, 12, 1) == part(h, 0x1000, 2)
            &&& field(h, 10, 2) == part(h, 0x400, 4)
            &&& field(h, 10, 3) == part(h, 0x400, 8)
            &&& field(h, 6, 1) == part(h, 0x40, 2)
            &&& field(h, 5, 1) << 1 == 2 * part(h, 0x20, 2)
            &&& field(h, 5, 2) == part(h, 0x20, 4)
            &&& field(h, 2, 3) == part(h, 4, 8)
            &&& field(h, 5, 2) | field(h, 12, 1) << 2 == part(h, 0x20, 4) + 4 * part(h, 0x1000, 2)
        }),
{
    reveal(part);
    let f2_5 = field(h, 2, 5);
    let f12_1 = field(h, 12, 1);
    let f11_1 = field(h, 11, 1);
    let f9_2 = field(h, 9, 2);
    let f8_1 = field(h, 8, 1);
    let f7_1 = field(h, 7, 1);
    let f6_1 = field(h, 6, 1);
    let f3_3 = field(h, 3, 3);
    let f2_1 = field(h, 2, 1);
    let f10_2 = field(h, 10, 2);
    let f5_2 = field(h, 5, 2);
    let f3_2 = field(h, 3, 2);
    let f7_4 = field(h, 7, 4);
    let f11_2 = field(h, 11, 2);
    let f5_1 = field(h, 5, 1);
    let f10_3 = field(h, 10, 3);
    let f2_3 = field(h, 2, 3);
    let f4_3 = field(h, 4, 3);
    let f2_2 = field(h, 2, 2);
    let f7_3 = field(h, 7, 3);
    let f9_4 = field(h, 9, 4);
    let f7_2 = field(h, 7, 2);
    let f7_5 = field(h, 7, 5);
    let a = six_bit_immediate(h);
    let c = jump_offset(h);
    let d = branch_offset(h);
    let f = stack_move_offset(h);
    let g = upper_immediate(h);
    let b = six_bit_shift(h);
    let e = stack_address_offset(h);
    let m1 = memory_offset(h, true);
    let m0 = memory_offset(h, false);
    let l1 = stack_load_offset(h, true);
    let l0 = stack_load_offset(h, false);
    let t1 = stack_store_offset(h, true);
    let t0 = stack_store_offset(h, false);
    let u4 = field(h, 5, 1) << 1;
    let u7 = field(h, 5, 2) | field(h, 12, 1) << 2;
    let i = h as u64;
    let s = f12_1;
    assert(a == i / 4 % 32 + 0xffff_ffff_ffff_ffe0 * s && b == i / 4 % 32 + 32 * s && c == 2 * (i / 8
        % 8) + 16 * (i / 0x800 % 2) + 32 * (i / 4 % 2) + 64 * (i / 0x80 % 2) + 128 * (i / 0x40 % 2)
        + 256 * (i / 0x200 % 4) + 1024 * (i / 0x100 % 2) + 0xffff_ffff_ffff_f800 * s && d == 2 * (i
        / 8 % 4) + 8 * (i / 0x400 % 4) + 32 * (i / 4 % 2) + 64 * (i / 0x20 % 4)
        + 0xffff_ffff_ffff_ff00 * s && e == 4 * (i / 0x40 % 2) + 8 * (i / 0x20 % 2) + 16 * (i
        / 0x800 % 4) + 64 * (i / 0x80 % 16) && f == 16 * (i / 0x40 % 2) + 32 * (i / 4 % 2) + 64 * (i
        / 0x20 % 2) + 128 * (i / 8 % 4) + 0xffff_ffff_ffff_fe00 * s && g == 4096 * (i / 4 % 32)
        + 0xffff_ffff_fffe_0000 * s && m1 == 8 * (i / 0x400 % 8) + 64 * (i / 0x20 % 4) && m0 == 4 * (
    i / 0x40 % 2) + 8 * (i / 0x400 % 8) + 64 * (i / 0x20 % 2) && l1 == 8 * (i / 0x20 % 4) + 32 * s
        + 64 * (i / 4 % 8) && l0 == 4 * (i / 0x10 % 8) + 32 * s + 64 * (i / 4 % 4) && t1 == 8 * (i
        / 0x400 % 8) + 64 * (i / 0x80 % 8) && t0 == 4 * (i / 0x200 % 16) + 64 * (i / 0x80 % 4) && f7_5 == i / 0x80 % 32 && f2_5 == i / 4 % 32 && f7_3 == i / 0x80 % 8
        && s == i / 0x1000 % 2 && f10_2 == i / 0x400 % 4 && f10_3 == i / 0x400 % 8 && f6_1 == i
        / 0x40 % 2 && u4 == 2 * (i / 0x20 % 2) && f5_2 == i / 0x20 % 4 && f2_3 == i / 4 % 8 && u7
        == i / 0x20 % 4 + 4 * s) by (bit_vector)
        requires
            i < 0x1_0000,
            s == f12_1,
            f2_5 == ((i >> 2u32) % (1u64 << 5u32)),
            f12_1 == ((i >> 12u32) % (1u64 << 1u32)),
            f11_1 == ((i >> 11u32) % (1u64 << 1u32)),
            f9_2 == ((i >> 9u32) % (1u64 << 2u32)),
            f8_1 == ((i >> 8u32) % (1u64 << 1u32)),
            f7_1 == ((i >> 7u32) % (1u64 << 1u32)),
            f6_1 == ((i >> 6u32) % (1u64 << 1u32)),
            f3_3 == ((i >> 3u32) % (1u64 << 3u32)),
            f2_1 == ((i >> 2u32) % (1u64 << 1u32)),
            f10_2 == ((i >> 10u32) % (1u64 << 2u32)),
            f5_2 == ((i >> 5u32) % (1u64 << 2u32)),
            f3_2 == ((i >> 3u32) % (1u64 << 2u32)),
            f7_4 == ((i >> 7u32) % (1u64 << 4u32)),
            f11_2 == ((i >> 11u32) % (1u64 << 2u32)),
            f5_1 == ((i >> 5u32) % (1u64 << 1u32)),
            f10_3 == ((i >> 10u32) % (1u64 << 3u32)),
            f2_3 == ((i >> 2u32) % (1u64 << 3u32)),
            f4_3 == ((i >> 4u32) % (1u64 << 3u32)),
            f2_2 == ((i >> 2u32) % (1u64 << 2u32)),
            f7_3 == ((i >> 7u32) % (1u64 << 3u32)),
            f9_4 == ((i >> 9u32) % (1u64 << 4u32)),
            f7_2 == ((i >> 7u32) % (1u64 << 2u32)),
            f7_5 == ((i >> 7u32) % (1u64 << 5u32)),
            a == ((((f2_5 | f12_1 << 5) << 58u32) as i64) >> 58u32) as u64,
            c == ((((f12_1 << 11 | f11_1 << 4 | f9_2 << 8 | f8_1 << 10 | f7_1 << 6 | f6_1 << 7 | f3_3 << 1 | f2_1 << 5) << 52u32) as i64) >> 52u32) as u64,
            d == ((((f12_1 << 8 | f10_2 << 3 | f5_2 << 6 | f3_2 << 1 | f2_1 << 5) << 55u32) as i64) >> 55u32) as u64,
            f == ((((f12_1 << 9 | f6_1 << 4 | f5_1 << 6 | f3_2 << 7 | f2_1 << 5) << 54u32) as i64) >> 54u32) as u64,
            g == ((((f12_1 << 17 | f2_5 << 12) << 46u32) as i64) >> 46u32) as u64,
            b == (f2_5 | f12_1 << 5) % 64,
            e == f7_4 << 6 | f11_2 << 4 | f5_1 << 3 | f6_1 << 2,
            m1 == f10_3 << 3 | f5_2 << 6,
            m0 == f10_3 << 3 | f6_1 << 2 | f5_1 << 6,
            l1 == f12_1 << 5 | f5_2 << 3 | f2_3 << 6,
            l0 == f12_1 << 5 | f4_3 << 2 | f2_2 << 6,
            t1 == f10_3 << 3 | f7_3 << 6,
            t0 == f9_4 << 2 | f7_2 << 6,
            u4 == f5_1 << 1,
            u7 == f5_2 | f12_1 << 2,
    ;
    assert(s == part(h, 0x1000, 2));
    vstd::bits::lemma_u16_shr_is_div(h, 13);
    vstd::arithmetic::power2::lemma2_to64();
}

/// The offsets, as numbers.
proof fn lemma_offsets(h: u16)
    ensures
        six_bit_immediate(h) == wrap(small_number(h)),
        jump_offset(h) == wrap(jump_distance(h)),
        branch_offset(h) == wrap(branch_distance(h)),
        stack_move_offset(h) == wrap(stack_distance(h)),
        upper_immediate(h) == wrap(4096 * small_number(h)),
        -32 <= small_number(h) < 32,
        0 <= distance(h) < 64,
        -2048 <= jump_distance(h) < 2048,
        -256 <= branch_distance(h) < 256,
        -512 <= stack_distance(h) < 512,
{
    lemma_bits(h);
    lemma_part(h, 4, 32);
    lemma_part(h, 0x1000, 2);
    lemma_part(h, 8, 8);
    lemma_part(h, 8, 4);
    lemma_part(h, 0x800, 2);
    lemma_part(h, 4, 2);
    lemma_part(h, 0x80, 2);
    lemma_part(h, 0x40, 2);
    lemma_part(h, 0x200, 4);
    lemma_part(h, 0x100, 2);
    lemma_part(h, 0x400, 4);
    lemma_part(h, 0x20, 4);
    lemma_part(h, 0x20, 2);
}

/// Whether a compressed instruction was refused as one that does not exist.
pub open spec fn refused<M>(
    done: (Result<InstructionOutcome, Trap>, CpuModel, M),
    h: u16,
    c: CpuModel,
    m: M,
) -> bool {
    done == (
        Err::<InstructionOutcome, _>(
            Trap { exception: Exception::IllegalInstruction, value: h as u64 },
        ),
        c,
        m,
    )
}

proof fn lemma_registers(h: u16)
    ensures
        0 <= wide(h) < 32,
        0 <= second(h) < 32,
        8 <= high(h) < 16,
        8 <= low(h) < 16,
        0 <= part(h, 0x2000, 8) < 8,
{
    lemma_part(h, 0x80, 32);
    lemma_part(h, 4, 32);
    lemma_part(h, 0x80, 8);
    lemma_part(h, 4, 8);
    lemma_part(h, 0x2000, 8);
}

proof fn lemma_next(pc: u64, d: int)
    requires
        -0x10_0000 <= d < 0x10_0000,
    ensures
        pc.wrapping_add(2) == wrap(pc + 2),
        pc.wrapping_add(wrap(d)) == wrap(pc + d),
{
    isa::lemma_add(pc, d);
}

proof fn lemma_shape(h: u16)
    ensures
        h >> 13 == part(h, 0x2000, 8),
        full_field(h, 7) == wide(h),
        full_field(h, 2) == second(h),
        compact_field(h, 7) == high(h),
        compact_field(h, 2) == low(h),
{
    lemma_bits(h);
}

proof fn lemma_from_stack<B: CpuBus>(c: CpuModel, m: B::Model, pc: u64, h: u16)
    requires
        h % 4 == 0,
        h >> 13 == 0,
    ensures
        ({
            let done = c.execute_compressed::<B>(m, pc, h);
            if from_stack(h) == 0 {
                refused(done, h, c, m)
            } else {
                isa::gave(done, pc + 2, low(h), wrap(c.registers[2] + from_stack(h)), c, m)
            }
        }),
{
    lemma_shape(h);
    lemma_registers(h);
    lemma_next(pc, 0);
    let k = from_stack(h);
    let offset = stack_address_offset(h);
    assert(offset == k) by {
        lemma_bits(h);
    }
    assert(0 <= k < 1024) by {
        lemma_part(h, 0x40, 2);
        lemma_part(h, 0x20, 2);
        lemma_part(h, 0x800, 4);
        lemma_part(h, 0x80, 16);
    }
    let stack = c.registers[2];
    assert(stack.wrapping_add(offset) == wrap(stack + k));
}

proof fn lemma_small_sum<B: CpuBus>(c: CpuModel, m: B::Model, pc: u64, h: u16)
    requires
        h % 4 == 1,
        h >> 13 <= 2,
    ensures
        ({
            let done = c.execute_compressed::<B>(m, pc, h);
            let sum = c.registers[wide(h)] + small_number(h);
            isa::gave(
                done,
                pc + 2,
                wide(h),
                wrap(
                    if h >> 13 == 0 {
                        sum
                    } else if h >> 13 == 1 {
                        word_number(sum)
                    } else {
                        small_number(h)
                    },
                ),
                c,
                m,
            )
        }),
{
    lemma_shape(h);
    lemma_registers(h);
    lemma_next(pc, 0);
    let d = small_number(h);
    let immediate = six_bit_immediate(h);
    assert(immediate == wrap(d) && -32 <= d < 32) by {
        lemma_offsets(h);
    }
    let here = c.registers[wide(h)];
    lemma_next(here, d);
    let sum = here.wrapping_add(immediate);
    isa::lemma_low(sum);
    assert(sum as int % 0x1_0000_0000 == (here + d) % 0x1_0000_0000);
}

proof fn lemma_large_sum<B: CpuBus>(c: CpuModel, m: B::Model, pc: u64, h: u16)
    requires
        h % 4 == 1,
        h >> 13 == 3,
    ensures
        ({
            let done = c.execute_compressed::<B>(m, pc, h);
            let e = stack_distance(h);
            let d = small_number(h);
            if wide(h) == 2 && e != 0 {
                isa::gave(done, pc + 2, 2, wrap(c.registers[2] + e), c, m)
            } else if wide(h) != 2 && wide(h) != 0 && d != 0 {
                isa::gave(done, pc + 2, wide(h), wrap(4096 * d), c, m)
            } else {
                refused(done, h, c, m)
            }
        }),
{
    lemma_shape(h);
    lemma_registers(h);
    lemma_next(pc, 0);
    let d = small_number(h);
    let e = stack_distance(h);
    let near = stack_move_offset(h);
    let far = upper_immediate(h);
    assert(near == wrap(e) && far == wrap(4096 * d) && -32 <= d < 32 && -512 <= e < 512) by {
        lemma_offsets(h);
    }
    lemma_next(c.registers[2], e);
    assert(near == 0 <==> e == 0);
    assert(far == 0 <==> d == 0);
}

/// Sums with a number in the instruction: `C.ADDI`, `C.ADDIW`, `C.LI`, `C.LUI`,
/// `C.ADDI16SP` and `C.ADDI4SPN`. Those that would change nothing useful are
/// refused.
pub proof fn law_compressed_sum<B: CpuBus>(c: CpuModel, m: B::Model, pc: u64, h: u16)
    ensures
        ({
            let done = c.execute_compressed::<B>(m, pc, h);
            let kind = part(h, 0x2000, 8);
            let here = c.registers[wide(h)];
            let stack = c.registers[2];
            &&& h % 4 == 1 && kind == 0 ==> isa::gave(
                done,
                pc + 2,
                wide(h),
                wrap(here + small_number(h)),
                c,
                m,
            )
            &&& h % 4 == 1 && kind == 1 ==> isa::gave(
                done,
                pc + 2,
                wide(h),
                wrap(word_number(here + small_number(h))),
                c,
                m,
            )
            &&& h % 4 == 1 && kind == 2 ==> isa::gave(
                done,
                pc + 2,
                wide(h),
                wrap(small_number(h)),
                c,
                m,
            )
            &&& h % 4 == 1 && kind == 3 && wide(h) == 2 ==> if stack_distance(h) == 0 {
                refused(done, h, c, m)
            } else {
                isa::gave(done, pc + 2, 2, wrap(stack + stack_distance(h)), c, m)
            }
            &&& h % 4 == 1 && kind == 3 && wide(h) != 2 ==> if wide(h) == 0 || small_number(h)
                == 0 {
                refused(done, h, c, m)
            } else {
                isa::gave(done, pc + 2, wide(h), wrap(4096 * small_number(h)), c, m)
            }
            &&& h % 4 == 0 && kind == 0 ==> if from_stack(h) == 0 {
                refused(done, h, c, m)
            } else {
                isa::gave(done, pc + 2, low(h), wrap(stack + from_stack(h)), c, m)
            }
        }),
{
    let kind = part(h, 0x2000, 8);
    lemma_next(pc, 0);
    lemma_shape(h);
    lemma_registers(h);
    if h % 4 == 0 && kind == 0 {
        lemma_from_stack::<B>(c, m, pc, h);
    } else if h % 4 == 1 && kind <= 2 {
        lemma_small_sum::<B>(c, m, pc, h);
    } else if h % 4 == 1 && kind == 3 {
        lemma_large_sum::<B>(c, m, pc, h);
    }
}

/// Shifts and operations on two registers: `C.SLLI`, `C.SRLI`, `C.SRAI`, `C.ANDI`,
/// `C.SUB`, `C.XOR`, `C.OR`, `C.AND`, `C.SUBW`, `C.ADDW`, `C.MUL`, `C.ZEXT.B`,
/// `C.SEXT.B`, `C.ZEXT.H`, `C.SEXT.H`, `C.ZEXT.W`, `C.NOT`.
#[verifier::rlimit(50)]
#[verifier::spinoff_prover]
pub proof fn law_compressed_operation<B: CpuBus>(c: CpuModel, m: B::Model, pc: u64, h: u16)
    ensures
        ({
            let done = c.execute_compressed::<B>(m, pc, h);
            let kind = part(h, 0x2000, 8);
            let a = c.registers[high(h)];
            let b = c.registers[low(h)];
            let which = part(h, 0x400, 4);
            let code = part(h, 0x20, 4) + 4 * part(h, 0x1000, 2);
            let single = part(h, 4, 8);
            let p = pow2(distance(h) as nat) as int;
            &&& h % 4 == 2 && kind == 0 ==> isa::gave(
                done,
                pc + 2,
                wide(h),
                wrap(c.registers[wide(h)] * p),
                c,
                m,
            )
            &&& h % 4 == 1 && kind == 4 ==> {
                let gives = |x: int| isa::gave(done, pc + 2, high(h), wrap(x), c, m);
                if which == 0 {
                    gives(a as int / p)
                } else if which == 1 {
                    gives(number(a) / p)
                } else if which == 2 {
                    gives((a & wrap(small_number(h))) as int)
                } else if code == 0 {
                    gives(a - b)
                } else if code == 1 {
                    gives((a ^ b) as int)
                } else if code == 2 {
                    gives((a | b) as int)
                } else if code == 3 {
                    gives((a & b) as int)
                } else if code == 4 {
                    gives(word_number(a - b))
                } else if code == 5 {
                    gives(word_number(a + b))
                } else if code == 6 {
                    gives(a * b)
                } else if single == 0 {
                    gives(a as int % 0x100)
                } else if single == 1 {
                    gives(extended(a, 0x100))
                } else if single == 2 {
                    gives(a as int % 0x1_0000)
                } else if single == 3 {
                    gives(extended(a, 0x1_0000))
                } else if single == 4 {
                    gives(a as int % 0x1_0000_0000)
                } else if single == 5 {
                    gives(-1 - a)
                } else {
                    refused(done, h, c, m)
                }
            }
        }),
{
    lemma_shape(h);
    lemma_registers(h);
    lemma_next(pc, 0);
    let k = distance(h) as u32;
    let j = six_bit_shift(h);
    assert(j == k && 0 <= distance(h) < 64) by {
        lemma_bits(h);
        lemma_offsets(h);
    }
    let immediate = six_bit_immediate(h);
    let which = field(h, 10, 2);
    assert(immediate == wrap(small_number(h)) && which == part(h, 0x400, 4)) by {
        lemma_bits(h);
        lemma_offsets(h);
    }
    if h % 4 == 2 {
        let x = c.registers[wide(h)];
        isa::lemma_shl(x, k);
        assert(x << k == x << j);
    } else {
        let a = c.registers[high(h)];
        let b = c.registers[low(h)];
        isa::lemma_shr(a, k);
        assert(a >> k == a >> j);
        assert(((a as i64) >> k) as u64 == ((a as i64) >> j) as u64);
        lemma_alu(h, a, b);
        lemma_part(h, 0x400, 4);
    }
}

proof fn lemma_alu(h: u16, a: u64, b: u64)
    ensures
        ({
            let code = part(h, 0x20, 4) + 4 * part(h, 0x1000, 2);
            let single = part(h, 4, 8);
            let gives = |x: int| alu_result(h, a, b) == Ok::<u64, Trap>(wrap(x));
            if code == 0 {
                gives(a - b)
            } else if code == 1 {
                gives((a ^ b) as int)
            } else if code == 2 {
                gives((a | b) as int)
            } else if code == 3 {
                gives((a & b) as int)
            } else if code == 4 {
                gives(word_number(a - b))
            } else if code == 5 {
                gives(word_number(a + b))
            } else if code == 6 {
                gives(a * b)
            } else if single == 0 {
                gives(a as int % 0x100)
            } else if single == 1 {
                gives(extended(a, 0x100))
            } else if single == 2 {
                gives(a as int % 0x1_0000)
            } else if single == 3 {
                gives(extended(a, 0x1_0000))
            } else if single == 4 {
                gives(a as int % 0x1_0000_0000)
            } else if single == 5 {
                gives(-1 - a)
            } else {
                alu_result(h, a, b) == Err::<u64, Trap>(
                    Trap { exception: Exception::IllegalInstruction, value: h as u64 },
                )
            }
        }),
{
    let code = part(h, 0x20, 4) + 4 * part(h, 0x1000, 2);
    assert(field(h, 5, 2) | field(h, 12, 1) << 2 == code && field(h, 2, 3) == part(h, 4, 8)) by {
        lemma_bits(h);
    }
    lemma_part(h, 0x20, 4);
    lemma_part(h, 0x1000, 2);
    lemma_part(h, 4, 8);
    if code == 4 || code == 5 {
        let x = a.wrapping_sub(b);
        let y = a.wrapping_add(b);
        isa::lemma_low(x);
        isa::lemma_low(y);
        assert(x as int % 0x1_0000_0000 == (a - b) % 0x1_0000_0000);
        assert(y as int % 0x1_0000_0000 == (a + b) % 0x1_0000_0000);
    } else if code == 6 {
        assert(a.wrapping_mul(b) == wrap(a * b));
    } else if code == 7 {
        isa::lemma_simple(a, a);
        lemma_extended(a);
    }
}

/// Jumps and branches: `C.J`, `C.BEQZ`, `C.BNEZ`, `C.JR`, `C.JALR`, and `C.MV` and
/// `C.ADD`, which share their shape, and `C.EBREAK`.
#[verifier::rlimit(50)]
#[verifier::spinoff_prover]
pub proof fn law_compressed_jump<B: CpuBus>(c: CpuModel, m: B::Model, pc: u64, h: u16)
    ensures
        ({
            let done = c.execute_compressed::<B>(m, pc, h);
            let kind = part(h, 0x2000, 8);
            let zero = c.registers[high(h)] == 0;
            let target = c.registers[wide(h)] - c.registers[wide(h)] as int % 2;
            let linked = part(h, 0x1000, 2) == 1;
            &&& h % 4 == 1 && kind == 5 ==> isa::led_to(done, pc + jump_distance(h), c, m)
            &&& h % 4 == 1 && kind == 6 ==> isa::led_to(
                done,
                pc + if zero {
                    branch_distance(h)
                } else {
                    2
                },
                c,
                m,
            )
            &&& h % 4 == 1 && kind == 7 ==> isa::led_to(
                done,
                pc + if zero {
                    2
                } else {
                    branch_distance(h)
                },
                c,
                m,
            )
            &&& h % 4 == 2 && kind == 4 && second(h) == 0 && !linked && wide(h) != 0
                ==> isa::led_to(done, target, c, m)
            &&& h % 4 == 2 && kind == 4 && second(h) == 0 && !linked && wide(h) == 0 ==> refused(
                done,
                h,
                c,
                m,
            )
            &&& h % 4 == 2 && kind == 4 && second(h) == 0 && linked && wide(h) != 0 ==> isa::gave(
                done,
                target,
                1,
                wrap(pc + 2),
                c,
                m,
            )
            &&& h % 4 == 2 && kind == 4 && second(h) == 0 && linked && wide(h) == 0 ==> done == (
                Err::<InstructionOutcome, _>(Trap { exception: Exception::Breakpoint, value: 0 }),
                c,
                m,
            )
            &&& h % 4 == 2 && kind == 4 && second(h) != 0 && !linked ==> isa::gave(
                done,
                pc + 2,
                wide(h),
                c.registers[second(h)],
                c,
                m,
            )
            &&& h % 4 == 2 && kind == 4 && second(h) != 0 && linked ==> isa::gave(
                done,
                pc + 2,
                wide(h),
                wrap(c.registers[wide(h)] + c.registers[second(h)]),
                c,
                m,
            )
        }),
{
    assert(h >> 13 == part(h, 0x2000, 8) && full_field(h, 7) == wide(h) && full_field(h, 2)
        == second(h) && compact_field(h, 7) == high(h) && field(h, 12, 1) == part(h, 0x1000, 2))
        by {
        lemma_bits(h);
    }
    lemma_registers(h);
    lemma_next(pc, 0);
    if h % 4 == 1 {
        lemma_offsets(h);
        let j = jump_distance(h);
        let d = branch_distance(h);
        lemma_next(pc, j);
        lemma_next(pc, d);
    } else {
        lemma_part(h, 0x1000, 2);
        let x = c.registers[wide(h)];
        isa::lemma_simple(x, 0);
        assert(wrap(x - x as int % 2) == x & !1);
        let y = c.registers[second(h)];
        assert(x.wrapping_add(y) == wrap(x + y));
    }
}

/// Whether a load or a store of a kind was done at a place. A load is done as the
/// long form of the same name is; a store ends any reservation.
pub open spec fn accessed<B: CpuBus>(
    done: (Result<InstructionOutcome, Trap>, CpuModel, B::Model),
    c: CpuModel,
    m: B::Model,
    pc: u64,
    load: bool,
    place: int,
    register: int,
    kind: int,
) -> bool {
    if load {
        match c.load::<B>(m, wrap(place), width_of(kind % 4), Access::Read) {
            (Ok(value), cpu, n) => isa::gave(
                done,
                pc + 2,
                register,
                wrap(loaded(kind, value)),
                cpu,
                n,
            ),
            (Err(trap), cpu, n) => done == (Err::<InstructionOutcome, Trap>(trap), cpu, n),
        }
    } else {
        match c.store::<B>(m, wrap(place), width_of(kind), c.registers[register]) {
            (Ok(_), cpu, n) => isa::led_to(
                done,
                pc + 2,
                CpuModel { control: Control { reservation: None, ..cpu.control }, ..cpu },
                n,
            ),
            (Err(trap), cpu, n) => done == (Err::<InstructionOutcome, Trap>(trap), cpu, n),
        }
    }
}

proof fn lemma_loading<B: CpuBus>(
    c: CpuModel,
    m: B::Model,
    pc: u64,
    register: int,
    address: u64,
    kind: int,
    bits: u32,
)
    requires
        1 <= kind <= 5,
        bits == (if kind == 1 {
            16
        } else if kind == 2 {
            32int
        } else {
            64
        }),
    ensures
        accessed::<B>(
            c.loading::<B>(m, pc, register, address, width_of(kind % 4), bits),
            c,
            m,
            pc,
            true,
            address as int,
            register,
            kind,
        ),
{
    lemma_next(pc, 0);
    assert(wrap(address as int) == address);
    if let (Ok(value), _, _) = c.load::<B>(m, address, width_of(kind % 4), Access::Read) {
        lemma_extended(value);
        assert(wrap(value as int) == value);
    }
}

proof fn lemma_storing<B: CpuBus>(
    c: CpuModel,
    m: B::Model,
    pc: u64,
    register: int,
    address: u64,
    kind: int,
)
    ensures
        accessed::<B>(
            c.storing::<B>(m, pc, address, width_of(kind), c.registers[register]),
            c,
            m,
            pc,
            false,
            address as int,
            register,
            kind,
        ),
{
    lemma_next(pc, 0);
    assert(wrap(address as int) == address);
}

proof fn lemma_place(base: u64, offset: u64)
    requires
        offset < 1024,
    ensures
        wrap(base.wrapping_add(offset) as int) == wrap(base + offset),
{
}

proof fn lemma_distances(h: u16)
    ensures
        h >> 13 == part(h, 0x2000, 8),
        full_field(h, 7) == wide(h),
        full_field(h, 2) == second(h),
        compact_field(h, 7) == high(h),
        compact_field(h, 2) == low(h),
        forall|double: bool| #[trigger] memory_offset(h, double) == memory_distance(h, double),
        forall|double: bool| #[trigger]
            stack_load_offset(h, double) == stack_load_distance(h, double),
        forall|double: bool| #[trigger]
            stack_store_offset(h, double) == stack_store_distance(h, double),
        forall|double: bool| 0 <= #[trigger] memory_distance(h, double) < 1024,
        forall|double: bool| 0 <= #[trigger] stack_load_distance(h, double) < 1024,
        forall|double: bool| 0 <= #[trigger] stack_store_distance(h, double) < 1024,
        0 <= part(h, 0x2000, 8) < 8,
{
    lemma_bits(h);
    lemma_registers(h);
    lemma_part(h, 0x20, 4);
    lemma_part(h, 0x20, 2);
    lemma_part(h, 0x40, 2);
    lemma_part(h, 0x400, 8);
    lemma_part(h, 0x1000, 2);
    lemma_part(h, 0x10, 8);
    lemma_part(h, 4, 4);
    lemma_part(h, 4, 8);
    lemma_part(h, 0x80, 8);
    lemma_part(h, 0x80, 4);
    lemma_part(h, 0x200, 16);
}

/// `C.LW`, `C.LD`, `C.SW` and `C.SD`: words and doublewords at an offset from a
/// register.
#[verifier::rlimit(50)]
#[verifier::spinoff_prover]
pub proof fn law_compressed_access<B: CpuBus>(c: CpuModel, m: B::Model, pc: u64, h: u16)
    requires
        h % 4 == 0,
        part(h, 0x2000, 8) % 4 >= 2,
    ensures
        ({
            let f = part(h, 0x2000, 8);
            accessed::<B>(
                c.execute_compressed::<B>(m, pc, h),
                c,
                m,
                pc,
                f < 4,
                c.registers[high(h)] + memory_distance(h, f % 2 == 1),
                low(h),
                f % 4,
            )
        }),
{
    lemma_distances(h);
    let f = part(h, 0x2000, 8);
    let double = f % 2 == 1;
    let base = c.registers[high(h)];
    let offset = memory_offset(h, double);
    let address = base.wrapping_add(offset);
    lemma_place(base, offset);
    if f < 4 {
        let bits: u32 = if double {
            64
        } else {
            32
        };
        assert(c.execute_compressed::<B>(m, pc, h) == c.loading::<B>(
            m,
            pc,
            low(h),
            address,
            width_of(f),
            bits,
        ));
        lemma_loading::<B>(c, m, pc, low(h), address, f, bits);
    } else {
        assert(c.execute_compressed::<B>(m, pc, h) == c.storing::<B>(
            m,
            pc,
            address,
            width_of(f - 4),
            c.registers[low(h)],
        ));
        lemma_storing::<B>(c, m, pc, low(h), address, f - 4);
    }
}

/// `C.LWSP`, `C.LDSP`, `C.SWSP` and `C.SDSP`: words and doublewords at an offset
/// from the stack pointer. A load into register zero is refused.
#[verifier::rlimit(50)]
#[verifier::spinoff_prover]
pub proof fn law_compressed_stack_access<B: CpuBus>(c: CpuModel, m: B::Model, pc: u64, h: u16)
    requires
        h % 4 == 2,
        part(h, 0x2000, 8) % 4 >= 2,
    ensures
        ({
            let f = part(h, 0x2000, 8);
            let done = c.execute_compressed::<B>(m, pc, h);
            if f < 4 && wide(h) == 0 {
                refused(done, h, c, m)
            } else if f < 4 {
                accessed::<B>(
                    done,
                    c,
                    m,
                    pc,
                    true,
                    c.registers[2] + stack_load_distance(h, f == 3),
                    wide(h),
                    f,
                )
            } else {
                accessed::<B>(
                    done,
                    c,
                    m,
                    pc,
                    false,
                    c.registers[2] + stack_store_distance(h, f == 7),
                    second(h),
                    f - 4,
                )
            }
        }),
{
    lemma_distances(h);
    let f = part(h, 0x2000, 8);
    let double = f % 2 == 1;
    let base = c.registers[2];
    if f < 4 {
        let offset = stack_load_offset(h, double);
        let address = base.wrapping_add(offset);
        lemma_place(base, offset);
        let bits: u32 = if double {
            64
        } else {
            32
        };
        if wide(h) != 0 {
            assert(c.execute_compressed::<B>(m, pc, h) == c.loading::<B>(
                m,
                pc,
                wide(h),
                address,
                width_of(f),
                bits,
            ));
            lemma_loading::<B>(c, m, pc, wide(h), address, f, bits);
        }
    } else {
        let offset = stack_store_offset(h, double);
        let address = base.wrapping_add(offset);
        lemma_place(base, offset);
        assert(c.execute_compressed::<B>(m, pc, h) == c.storing::<B>(
            m,
            pc,
            address,
            width_of(f - 4),
            c.registers[second(h)],
        ));
        lemma_storing::<B>(c, m, pc, second(h), address, f - 4);
    }
}

/// `C.LBU`, `C.LHU`, `C.LH`, `C.SB` and `C.SH`: bytes within four bytes, and
/// halfwords within two, of a register.
pub proof fn law_compressed_small_access<B: CpuBus>(c: CpuModel, m: B::Model, pc: u64, h: u16)
    requires
        h % 4 == 0,
        part(h, 0x2000, 8) == 4,
    ensures
        ({
            let done = c.execute_compressed::<B>(m, pc, h);
            let which = part(h, 0x400, 8);
            let base = c.registers[high(h)];
            if which == 0 {
                accessed::<B>(done, c, m, pc, true, base + part(h, 0x20, 4), low(h), 4)
            } else if which == 1 {
                accessed::<B>(
                    done,
                    c,
                    m,
                    pc,
                    true,
                    base + 2 * part(h, 0x20, 2),
                    low(h),
                    5 - 4 * part(h, 0x40, 2),
                )
            } else if which == 2 {
                accessed::<B>(done, c, m, pc, false, base + part(h, 0x20, 4), low(h), 0)
            } else if which == 3 && part(h, 0x40, 2) == 0 {
                accessed::<B>(done, c, m, pc, false, base + 2 * part(h, 0x20, 2), low(h), 1)
            } else {
                refused(done, h, c, m)
            }
        }),
{
    lemma_distances(h);
    assert(field(h, 10, 3) == part(h, 0x400, 8) && field(h, 6, 1) == part(h, 0x40, 2) && field(
        h,
        5,
        1,
    ) << 1 == 2 * part(h, 0x20, 2) && field(h, 5, 2) == part(h, 0x20, 4)) by {
        lemma_bits(h);
    }
    lemma_part(h, 0x20, 4);
    lemma_part(h, 0x20, 2);
    lemma_part(h, 0x40, 2);
    let base = c.registers[high(h)];
    let near = field(h, 5, 2);
    let half = field(h, 5, 1) << 1;
    lemma_place(base, near);
    lemma_place(base, half);
    let a = base.wrapping_add(near);
    let b = base.wrapping_add(half);
    lemma_loading::<B>(c, m, pc, low(h), a, 4, 64);
    lemma_loading::<B>(c, m, pc, low(h), b, 5, 64);
    lemma_loading::<B>(c, m, pc, low(h), b, 1, 16);
    lemma_storing::<B>(c, m, pc, low(h), a, 0);
    lemma_storing::<B>(c, m, pc, low(h), b, 1);
    let which = part(h, 0x400, 8);
    let done = c.execute_compressed::<B>(m, pc, h);
    if which == 0 {
        assert(done == c.loading::<B>(m, pc, low(h), a, width_of(0), 64));
    } else if which == 1 {
        if part(h, 0x40, 2) == 0 {
            assert(done == c.loading::<B>(m, pc, low(h), b, width_of(1), 64));
        } else {
            assert(done == c.loading::<B>(m, pc, low(h), b, width_of(1), 16));
        }
    } else if which == 2 {
        assert(done == c.storing::<B>(m, pc, a, width_of(0), c.registers[low(h)]));
    } else if which == 3 && part(h, 0x40, 2) == 0 {
        assert(done == c.storing::<B>(m, pc, b, width_of(1), c.registers[low(h)]));
    }
}

} // verus!
