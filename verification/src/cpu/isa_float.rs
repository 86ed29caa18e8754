//! What instructions on floating-point registers do, said of the numbers that the
//! registers stand for.

use vstd::prelude::*;
use crate::cpu::isa::{funct3, rd, rs1, rs2, wrap};
use crate::cpu::isa;
use crate::cpu::{CpuBus, CpuModel, InstructionOutcome, Trap};
use crate::ieee::{self, exponent_of, fraction_of, no_number, sign_of, units, whole};
use crate::softfp::{self, Format, RoundingMode};

verus! {

/// The format that a word names in bits 25 and 26.
pub open spec fn format(w: u32) -> Format {
    if (w as int / 0x200_0000) % 4 == 0 {
        Format::Single
    } else {
        Format::Double
    }
}

/// What a register stands for. A short number fills the upper half with ones; any
/// other content is no number.
pub open spec fn operand(c: CpuModel, f: Format, register: int) -> u64 {
    let value = c.fp_registers[register];
    match f {
        Format::Double => value,
        Format::Single => if value >= 0xffff_ffff_0000_0000 {
            (value - 0xffff_ffff_0000_0000) as u64
        } else {
            0x7fc0_0000
        },
    }
}

/// Whether an encoding signals.
pub open spec fn signals(x: u64, f: Format) -> bool {
    no_number(x, f) && 2 * fraction_of(x, f) < whole(f)
}

proof fn lemma_operand(c: CpuModel, f: Format, register: int)
    ensures
        c.fp_operand(f, register) == operand(c, f, register),
        f.holds(operand(c, f, register)),
{
}

/// Whether floating point is switched on (bits 13 and 14 of `mstatus`).
pub open spec fn is_on(c: CpuModel) -> bool {
    (c.control.mstatus as int / 0x2000) % 4 != 0
}

proof fn lemma_word(c: CpuModel, w: u32)
    ensures
        (w >> 25) % 4 == (w as int / 0x200_0000) % 4,
        (w >> 25) / 4 == w as int / 0x800_0000,
        c.control.fp_on() == is_on(c),
        (w >> 12) % 8 == funct3(w),
        crate::cpu::alu::register_field(w, 7) == rd(w),
        crate::cpu::alu::register_field(w, 15) == rs1(w),
        crate::cpu::alu::register_field(w, 20) == rs2(w),
        0 <= rd(w) < 32,
{
    isa::lemma_fields(w);
    reveal(isa::funct7);
    let s = c.control.mstatus;
    assert((s & 0x6000 != 0) == ((s / 0x2000) % 4 != 0)) by (bit_vector);
}

/// An instruction on floating-point registers does its operation and goes on.
proof fn lemma_operation<B: CpuBus>(c: CpuModel, m: B::Model, pc: u64, w: u32)
    requires
        w % 128 == 0x53,
        (w as int / 0x200_0000) % 4 <= 1,
        is_on(c),
    ensures
        ({
            let (r, cpu) = c.execute_operation(
                w,
                (w as int / 0x800_0000) as u32,
                format(w),
                rd(w),
                rs1(w) as usize,
                rs2(w) as usize,
                funct3(w) as u32,
            );
            &&& c.execute::<B>(m, pc, w, 4).1 == cpu
            &&& c.execute::<B>(m, pc, w, 4).2 == m
            &&& r is Ok ==> c.execute::<B>(m, pc, w, 4).0 == Ok::<InstructionOutcome, Trap>(
                InstructionOutcome::following(wrap(pc + 4)),
            )
        }),
{
    lemma_word(c, w);
    isa::lemma_fields(w);
    isa::lemma_add(pc, 4);
}

proof fn lemma_compared(a: u64, b: u64, quiet: bool, f: Format)
    requires
        f.holds(a),
        f.holds(b),
    ensures
        ({
            let order = softfp::relation(a, b, f);
            let numbers = !no_number(a, f) && !no_number(b, f);
            &&& (order is Less) == (numbers && units(a, f) < units(b, f))
            &&& (order is Equal) == (numbers && units(a, f) == units(b, f))
            &&& softfp::relation_raises(a, b, quiet, f) == if !numbers && (!quiet || signals(a, f)
                || signals(b, f)) {
                16u32
            } else {
                0
            }
        }),
{
    ieee::law_order(a, b, f);
    ieee::law_decoded(a, f);
    ieee::law_decoded(b, f);
}

proof fn lemma_injected(a: u64, b: u64, sign: bool)
    ensures
        ({
            let f = Format::Double;
            let x = softfp::signed_bits(sign, softfp::magnitude(a, f), f);
            &&& exponent_of(x, f) == exponent_of(a, f)
            &&& fraction_of(x, f) == fraction_of(a, f)
            &&& sign_of(x, f) == sign
            &&& softfp::negative(a, f) == sign_of(a, f)
            &&& softfp::negative(b, f) == sign_of(b, f)
        }),
{
}

/// `FLE`, `FLT` and `FEQ` give 1 exactly when the two numbers stand in that order, and
/// 0 for anything that is no number. `FLE` and `FLT` raise the invalid flag for
/// whatever is no number, `FEQ` only for what signals.
#[verifier::rlimit(50)]
pub proof fn law_float_order<B: CpuBus>(c: CpuModel, m: B::Model, pc: u64, w: u32)
    requires
        w % 128 == 0x53,
        w as int / 0x800_0000 == 20,
        (w as int / 0x200_0000) % 4 <= 1,
        funct3(w) <= 2,
        is_on(c),
    ensures
        ({
            let f = format(w);
            let a = operand(c, f, rs1(w));
            let b = operand(c, f, rs2(w));
            let done = c.execute::<B>(m, pc, w, 4);
            let numbers = !no_number(a, f) && !no_number(b, f);
            let holds = numbers && if funct3(w) == 0 {
                units(a, f) <= units(b, f)
            } else if funct3(w) == 1 {
                units(a, f) < units(b, f)
            } else {
                units(a, f) == units(b, f)
            };
            let invalid = !numbers && (funct3(w) != 2 || signals(a, f) || signals(b, f));
            &&& done.0 matches Ok(outcome)
            &&& outcome.next_pc == wrap(pc + 4)
            &&& done.2 == m
            &&& done.1.registers == if rd(w) == 0 {
                c.registers
            } else {
                c.registers.update(
                    rd(w),
                    if holds {
                        1
                    } else {
                        0
                    },
                )
            }
            &&& done.1.fp_registers == c.fp_registers
            &&& done.1.control.fflags == c.control.fflags | if invalid {
                16u8
            } else {
                0
            }
        }),
{
    lemma_operation::<B>(c, m, pc, w);
    isa::lemma_fields(w);
    let f = format(w);
    lemma_operand(c, f, rs1(w));
    lemma_operand(c, f, rs2(w));
    let a = operand(c, f, rs1(w));
    let b = operand(c, f, rs2(w));
    lemma_compared(a, b, funct3(w) == 2, f);
    let order = softfp::relation(a, b, f);
    let holds = if funct3(w) == 0 {
        order is Less || order is Equal
    } else if funct3(w) == 1 {
        order is Less
    } else {
        order is Equal
    };
    let raised = softfp::relation_raises(a, b, funct3(w) == 2, f);
    assert(c.execute_operation(
        w,
        20,
        f,
        rd(w),
        rs1(w) as usize,
        rs2(w) as usize,
        funct3(w) as u32,
    ) == (
        Ok::<(), Trap>(()),
        c.with_register(rd(w), crate::cpu::alu::truth(holds)).with_flags(raised),
    ));
    assert((16u32 % 32) as u8 == 16u8 && (0u32 % 32) as u8 == 0u8);
}

/// `FSGNJ`, `FSGNJN` and `FSGNJX` give the first number with the sign of the second,
/// the opposite of it, or the one that the two signs make together.
#[verifier::rlimit(50)]
pub proof fn law_sign_injection<B: CpuBus>(c: CpuModel, m: B::Model, pc: u64, w: u32)
    requires
        w % 128 == 0x53,
        w as int / 0x800_0000 == 4,
        (w as int / 0x200_0000) % 4 == 1,
        funct3(w) <= 2,
        is_on(c),
        c.fp_registers.len() == 32,
    ensures
        ({
            let f = Format::Double;
            let a = operand(c, f, rs1(w));
            let b = operand(c, f, rs2(w));
            let done = c.execute::<B>(m, pc, w, 4);
            let x = done.1.fp_registers[rd(w)];
            &&& done.0 is Ok
            &&& done.1.registers == c.registers
            &&& exponent_of(x, f) == exponent_of(a, f)
            &&& fraction_of(x, f) == fraction_of(a, f)
            &&& sign_of(x, f) == if funct3(w) == 0 {
                sign_of(b, f)
            } else if funct3(w) == 1 {
                !sign_of(b, f)
            } else {
                sign_of(a, f) != sign_of(b, f)
            }
            &&& forall|i: int|
                0 <= i < 32 && i != rd(w) ==> (#[trigger] done.1.fp_registers[i])
                    == c.fp_registers[i]
        }),
{
    lemma_operation::<B>(c, m, pc, w);
    isa::lemma_fields(w);
    let f = Format::Double;
    let a = operand(c, f, rs1(w));
    let b = operand(c, f, rs2(w));
    let sign = if funct3(w) == 0 {
        softfp::negative(b, f)
    } else if funct3(w) == 1 {
        !softfp::negative(b, f)
    } else {
        softfp::negative(a, f) != softfp::negative(b, f)
    };
    lemma_injected(a, b, sign);
    let x = softfp::signed_bits(sign, softfp::magnitude(a, f), f);
    assert(c.execute_operation(
        w,
        4,
        f,
        rd(w),
        rs1(w) as usize,
        rs2(w) as usize,
        funct3(w) as u32,
    ) == (Ok::<(), Trap>(()), c.with_fp(f, rd(w), x)));
}

/// Sums, differences, products and quotients go through the operation of their name,
/// with the rounding that the word names (or `frm` where it names 7); a difference
/// adds the negated number.
pub proof fn law_float_arithmetic<B: CpuBus>(
    c: CpuModel,
    m: B::Model,
    pc: u64,
    w: u32,
    rm: RoundingMode,
)
    requires
        w % 128 == 0x53,
        w as int / 0x800_0000 <= 3,
        (w as int / 0x200_0000) % 4 == 1,
        is_on(c),
        c.fp_registers.len() == 32,
        ({
            let mode = if funct3(w) == 7 {
                c.control.frm as int
            } else {
                funct3(w)
            };
            match rm {
                RoundingMode::NearEven => mode == 0,
                RoundingMode::Zero => mode == 1,
                RoundingMode::Down => mode == 2,
                RoundingMode::Up => mode == 3,
                RoundingMode::NearMaxMag => mode == 4,
            }
        }),
    ensures
        ({
            let f = Format::Double;
            let a = operand(c, f, rs1(w));
            let b = operand(c, f, rs2(w));
            let done = c.execute::<B>(m, pc, w, 4);
            let code = w as int / 0x800_0000;
            let r = if code == 0 {
                softfp::sum(rm, a, b, f)
            } else if code == 1 {
                softfp::sum(rm, a, softfp::negated(b, f), f)
            } else if code == 2 {
                softfp::product(rm, a, b, f)
            } else {
                softfp::quotient(rm, a, b, f)
            };
            &&& done.0 is Ok
            &&& done.1.fp_registers == c.fp_registers.update(rd(w), r.bits)
            &&& done.1.registers == c.registers
            &&& done.1.control.fflags == c.control.fflags | ((r.raised % 32) as u8)
        }),
{
    lemma_operation::<B>(c, m, pc, w);
    isa::lemma_fields(w);
}

} // verus!
