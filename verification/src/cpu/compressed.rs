//! The C and Zcb extensions.

use vstd::prelude::*;
use crate::cpu::alu;
use crate::cpu::alu::sign_extend;
use crate::cpu::mmu::Access;
use crate::cpu::{Cpu, CpuBus, CpuModel, Exception, InstructionOutcome, Trap};
use crate::memory::AccessWidth;

verus! {

/// The trap of a compressed instruction that does not exist.
pub open spec fn illegal_half(instruction: u16) -> Trap {
    Trap { exception: Exception::IllegalInstruction, value: instruction as u64 }
}

fn illegal(instruction: u16) -> (r: Trap)
    ensures
        r == illegal_half(instruction),
{
    Trap { exception: Exception::IllegalInstruction, value: instruction as u64 }
}

/// The `width` bits of an instruction from bit `start` on.
pub open spec fn field(instruction: u16, start: u32, width: u32) -> u64 {
    ((instruction >> start) as u64) % (1u64 << width)
}

fn bits(instruction: u16, start: u32, width: u32) -> (r: u64)
    requires
        start < 16,
        0 < width < 16,
    ensures
        r == field(instruction, start, width),
        r < 1u64 << width,
{
    assert(1u64 << width > 0) by (bit_vector)
        requires
            width < 16,
    ;
    ((instruction >> start) as u64) % (1u64 << width)
}

proof fn lemma_small_powers()
    ensures
        1u64 << 1u32 == 2,
        1u64 << 2u32 == 4,
        1u64 << 3u32 == 8,
        1u64 << 5u32 == 32,
{
    assert(1u64 << 1u32 == 2 && 1u64 << 2u32 == 4 && 1u64 << 3u32 == 8 && 1u64 << 5u32 == 32)
        by (bit_vector);
}

/// A register of the eight that three bits can name.
pub open spec fn compact_field(instruction: u16, start: u32) -> usize {
    (field(instruction, start, 3) + 8) as usize
}

fn compact_register(instruction: u16, start: u32) -> (r: usize)
    requires
        start < 16,
    ensures
        r == compact_field(instruction, start),
        r < 32,
{
    proof {
        lemma_small_powers();
    }
    (bits(instruction, start, 3) + 8) as usize
}

pub open spec fn full_field(instruction: u16, start: u32) -> usize {
    field(instruction, start, 5) as usize
}

fn register(instruction: u16, start: u32) -> (r: usize)
    requires
        start < 16,
    ensures
        r == full_field(instruction, start),
        r < 32,
{
    proof {
        lemma_small_powers();
    }
    bits(instruction, start, 5) as usize
}

/// Register fields name registers.
pub proof fn lemma_register_fields(instruction: u16)
    ensures
        full_field(instruction, 7) < 32,
        full_field(instruction, 2) < 32,
        8 <= compact_field(instruction, 7) < 16,
        8 <= compact_field(instruction, 2) < 16,
{
    lemma_small_powers();
}

/// A signed six-bit immediate.
pub open spec fn six_bit_immediate(instruction: u16) -> u64 {
    alu::sign_extended(field(instruction, 2, 5) | field(instruction, 12, 1) << 5, 6)
}

pub fn ci_immediate(instruction: u16) -> (r: u64)
    ensures
        r == six_bit_immediate(instruction),
{
    sign_extend(bits(instruction, 2, 5) | bits(instruction, 12, 1) << 5, 6)
}

/// An unsigned six-bit shift distance.
pub open spec fn six_bit_shift(instruction: u16) -> u64 {
    (field(instruction, 2, 5) | field(instruction, 12, 1) << 5) % 64
}

pub fn shift_amount(instruction: u16) -> (r: u64)
    ensures
        r == six_bit_shift(instruction),
{
    (bits(instruction, 2, 5) | bits(instruction, 12, 1) << 5) % 64
}

/// The offset of a jump.
pub open spec fn jump_offset(instruction: u16) -> u64 {
    alu::sign_extended(
        field(instruction, 12, 1) << 11 | field(instruction, 11, 1) << 4 | field(instruction, 9, 2)
            << 8 | field(instruction, 8, 1) << 10 | field(instruction, 7, 1) << 6 | field(
            instruction,
            6,
            1,
        ) << 7 | field(instruction, 3, 3) << 1 | field(instruction, 2, 1) << 5,
        12,
    )
}

pub fn cj_immediate(instruction: u16) -> (r: u64)
    ensures
        r == jump_offset(instruction),
{
    sign_extend(
        bits(instruction, 12, 1) << 11 | bits(instruction, 11, 1) << 4 | bits(instruction, 9, 2)
            << 8 | bits(instruction, 8, 1) << 10 | bits(instruction, 7, 1) << 6 | bits(
            instruction,
            6,
            1,
        ) << 7 | bits(instruction, 3, 3) << 1 | bits(instruction, 2, 1) << 5,
        12,
    )
}

/// The offset of a branch.
pub open spec fn branch_offset(instruction: u16) -> u64 {
    alu::sign_extended(
        field(instruction, 12, 1) << 8 | field(instruction, 10, 2) << 3 | field(instruction, 5, 2) << 6
            | field(instruction, 3, 2) << 1 | field(instruction, 2, 1) << 5,
        9,
    )
}

pub fn cb_immediate(instruction: u16) -> (r: u64)
    ensures
        r == branch_offset(instruction),
{
    sign_extend(
        bits(instruction, 12, 1) << 8 | bits(instruction, 10, 2) << 3 | bits(instruction, 5, 2) << 6
            | bits(instruction, 3, 2) << 1 | bits(instruction, 2, 1) << 5,
        9,
    )
}

/// The offset of an address on the stack.
pub open spec fn stack_address_offset(instruction: u16) -> u64 {
    field(instruction, 7, 4) << 6 | field(instruction, 11, 2) << 4 | field(instruction, 5, 1) << 3
        | field(instruction, 6, 1) << 2
}

pub fn addi4spn_immediate(instruction: u16) -> (r: u64)
    ensures
        r == stack_address_offset(instruction),
{
    bits(instruction, 7, 4) << 6 | bits(instruction, 11, 2) << 4 | bits(instruction, 5, 1) << 3
        | bits(instruction, 6, 1) << 2
}

/// The distance by which the stack pointer moves.
pub open spec fn stack_move_offset(instruction: u16) -> u64 {
    alu::sign_extended(
        field(instruction, 12, 1) << 9 | field(instruction, 6, 1) << 4 | field(instruction, 5, 1) << 6
            | field(instruction, 3, 2) << 7 | field(instruction, 2, 1) << 5,
        10,
    )
}

pub fn addi16sp_immediate(instruction: u16) -> (r: u64)
    ensures
        r == stack_move_offset(instruction),
{
    sign_extend(
        bits(instruction, 12, 1) << 9 | bits(instruction, 6, 1) << 4 | bits(instruction, 5, 1) << 6
            | bits(instruction, 3, 2) << 7 | bits(instruction, 2, 1) << 5,
        10,
    )
}

/// An immediate for the upper bits of a register.
pub open spec fn upper_immediate(instruction: u16) -> u64 {
    alu::sign_extended((field(instruction, 12, 1) << 17) | (field(instruction, 2, 5) << 12), 18)
}

pub fn lui_immediate(instruction: u16) -> (r: u64)
    ensures
        r == upper_immediate(instruction),
{
    sign_extend((bits(instruction, 12, 1) << 17) | (bits(instruction, 2, 5) << 12), 18)
}

/// The offset of a load or store from a register.
pub open spec fn memory_offset(instruction: u16, double: bool) -> u64 {
    if double {
        field(instruction, 10, 3) << 3 | field(instruction, 5, 2) << 6
    } else {
        field(instruction, 10, 3) << 3 | field(instruction, 6, 1) << 2 | field(instruction, 5, 1) << 6
    }
}

pub fn register_offset(instruction: u16, double: bool) -> (r: u64)
    ensures
        r == memory_offset(instruction, double),
{
    if double {
        bits(instruction, 10, 3) << 3 | bits(instruction, 5, 2) << 6
    } else {
        bits(instruction, 10, 3) << 3 | bits(instruction, 6, 1) << 2 | bits(instruction, 5, 1) << 6
    }
}

/// The offset of a load from the stack.
pub open spec fn stack_load_offset(instruction: u16, double: bool) -> u64 {
    if double {
        field(instruction, 12, 1) << 5 | field(instruction, 5, 2) << 3 | field(instruction, 2, 3) << 6
    } else {
        field(instruction, 12, 1) << 5 | field(instruction, 4, 3) << 2 | field(instruction, 2, 2) << 6
    }
}

pub fn stack_load_immediate(instruction: u16, double: bool) -> (r: u64)
    ensures
        r == stack_load_offset(instruction, double),
{
    if double {
        bits(instruction, 12, 1) << 5 | bits(instruction, 5, 2) << 3 | bits(instruction, 2, 3) << 6
    } else {
        bits(instruction, 12, 1) << 5 | bits(instruction, 4, 3) << 2 | bits(instruction, 2, 2) << 6
    }
}

/// The offset of a store to the stack.
pub open spec fn stack_store_offset(instruction: u16, double: bool) -> u64 {
    if double {
        field(instruction, 10, 3) << 3 | field(instruction, 7, 3) << 6
    } else {
        field(instruction, 9, 4) << 2 | field(instruction, 7, 2) << 6
    }
}

pub fn stack_store_immediate(instruction: u16, double: bool) -> (r: u64)
    ensures
        r == stack_store_offset(instruction, double),
{
    if double {
        bits(instruction, 10, 3) << 3 | bits(instruction, 7, 3) << 6
    } else {
        bits(instruction, 9, 4) << 2 | bits(instruction, 7, 2) << 6
    }
}

/// The result of a computation on two of the eight registers.
pub open spec fn alu_result(instruction: u16, left: u64, right: u64) -> Result<u64, Trap> {
    let operation = field(instruction, 5, 2) | field(instruction, 12, 1) << 2;
    if operation == 0 {
        Ok(left.wrapping_sub(right))
    } else if operation == 1 {
        Ok(left ^ right)
    } else if operation == 2 {
        Ok(left | right)
    } else if operation == 3 {
        Ok(left & right)
    } else if operation == 4 {
        Ok(alu::sign_extended(left.wrapping_sub(right), 32))
    } else if operation == 5 {
        Ok(alu::sign_extended(left.wrapping_add(right), 32))
    } else if operation == 6 {
        Ok(left.wrapping_mul(right))
    } else {
        let unary = field(instruction, 2, 3);
        if unary == 0 {
            Ok(left % 0x100)
        } else if unary == 1 {
            Ok(alu::sign_extended(left, 8))
        } else if unary == 2 {
            Ok(left % 0x1_0000)
        } else if unary == 3 {
            Ok(alu::sign_extended(left, 16))
        } else if unary == 4 {
            Ok(left % 0x1_0000_0000)
        } else if unary == 5 {
            Ok(!left)
        } else {
            Err(illegal_half(instruction))
        }
    }
}

pub fn alu_value(instruction: u16, left: u64, right: u64) -> (r: Result<u64, Trap>)
    ensures
        r == alu_result(instruction, left, right),
{
    let operation: u64 = bits(instruction, 5, 2) | bits(instruction, 12, 1) << 2;
    if operation == 0 {
        Ok(left.wrapping_sub(right))
    } else if operation == 1 {
        Ok(left ^ right)
    } else if operation == 2 {
        Ok(left | right)
    } else if operation == 3 {
        Ok(left & right)
    } else if operation == 4 {
        Ok(sign_extend(left.wrapping_sub(right), 32))
    } else if operation == 5 {
        Ok(sign_extend(left.wrapping_add(right), 32))
    } else if operation == 6 {
        Ok(left.wrapping_mul(right))
    } else {
        let unary: u64 = bits(instruction, 2, 3);
        if unary == 0 {
            Ok(left % 0x100)
        } else if unary == 1 {
            Ok(sign_extend(left, 8))
        } else if unary == 2 {
            Ok(left % 0x1_0000)
        } else if unary == 3 {
            Ok(sign_extend(left, 16))
        } else if unary == 4 {
            Ok(left % 0x1_0000_0000)
        } else if unary == 5 {
            Ok(!left)
        } else {
            Err(illegal(instruction))
        }
    }
}

/// A byte or halfword access: its width, offset, whether it stores and whether
/// a loaded value is sign extended.
pub open spec fn small_access(instruction: u16) -> Option<(AccessWidth, u64, bool, bool)> {
    let operation = field(instruction, 10, 3);
    let flag = field(instruction, 6, 1) != 0;
    if operation == 0 {
        Some((AccessWidth::Byte, field(instruction, 5, 2), false, false))
    } else if operation == 1 {
        Some((AccessWidth::HalfWord, field(instruction, 5, 1) << 1, false, flag))
    } else if operation == 2 {
        Some((AccessWidth::Byte, field(instruction, 5, 2), true, false))
    } else if operation == 3 && !flag {
        Some((AccessWidth::HalfWord, field(instruction, 5, 1) << 1, true, false))
    } else {
        None
    }
}

impl CpuModel {
    pub open spec fn going<B: CpuBus>(self, m: B::Model, target: u64) -> (
        Result<InstructionOutcome, Trap>,
        CpuModel,
        B::Model,
    ) {
        (Ok(InstructionOutcome::leaving(target, true)), self, m)
    }

    /// A load into a register, sign extended from `extend` bits.
    pub open spec fn loading<B: CpuBus>(
        self,
        m: B::Model,
        pc: u64,
        rd: int,
        address: u64,
        width: AccessWidth,
        extend: u32,
    ) -> (Result<InstructionOutcome, Trap>, CpuModel, B::Model) {
        match self.load::<B>(m, address, width, Access::Read) {
            (Ok(value), cpu, n) => (
                Ok(InstructionOutcome::following(pc.wrapping_add(2))),
                cpu.with_register(rd, crate::cpu::execute::extended_load(value, extend)),
                n,
            ),
            (Err(trap), cpu, n) => (Err(trap), cpu, n),
        }
    }

    pub open spec fn storing<B: CpuBus>(
        self,
        m: B::Model,
        pc: u64,
        address: u64,
        width: AccessWidth,
        value: u64,
    ) -> (Result<InstructionOutcome, Trap>, CpuModel, B::Model) {
        match self.store::<B>(m, address, width, value) {
            (Ok(_), cpu, n) => (
                Ok(InstructionOutcome::following(pc.wrapping_add(2))),
                cpu.reserving(None),
                n,
            ),
            (Err(trap), cpu, n) => (Err(trap), cpu, n),
        }
    }

    /// Jumps and moves between registers.
    pub open spec fn execute_compressed_jump<B: CpuBus>(
        self,
        m: B::Model,
        pc: u64,
        instruction: u16,
    ) -> (Result<InstructionOutcome, Trap>, CpuModel, B::Model) {
        let rd = full_field(instruction, 7) as int;
        let rs2 = full_field(instruction, 2) as int;
        let high = field(instruction, 12, 1) != 0;
        let following = InstructionOutcome::following(pc.wrapping_add(2));
        if rs2 == 0 && !high {
            if rd == 0 {
                (Err(illegal_half(instruction)), self, m)
            } else {
                self.going::<B>(m, self.registers[rd] & !1)
            }
        } else if rs2 == 0 {
            if rd == 0 {
                (Err(Trap { exception: Exception::Breakpoint, value: 0 }), self, m)
            } else {
                self.with_register(1, pc.wrapping_add(2)).going::<B>(m, self.registers[rd] & !1)
            }
        } else if high {
            (
                Ok(following),
                self.with_register(rd, self.registers[rd].wrapping_add(self.registers[rs2])),
                m,
            )
        } else {
            (Ok(following), self.with_register(rd, self.registers[rs2]), m)
        }
    }

    /// The effect of a compressed instruction.
    pub open spec fn execute_compressed<B: CpuBus>(self, m: B::Model, pc: u64, instruction: u16) -> (
        Result<InstructionOutcome, Trap>,
        CpuModel,
        B::Model,
    ) {
        let refused = (Err(illegal_half(instruction)), self, m);
        let following = InstructionOutcome::following(pc.wrapping_add(2));
        let quadrant = instruction % 4;
        let funct3 = instruction >> 13;
        let rd = full_field(instruction, 7) as int;
        let low = compact_field(instruction, 2) as int;
        let high = compact_field(instruction, 7) as int;
        let double = funct3 % 2 == 1;
        let width = if double {
            AccessWidth::DoubleWord
        } else {
            AccessWidth::Word
        };
        let extend: u32 = if double {
            64
        } else {
            32
        };
        if quadrant == 0 {
            if funct3 == 0 {
                let immediate = stack_address_offset(instruction);
                if immediate == 0 {
                    refused
                } else {
                    (
                        Ok(following),
                        self.with_register(low, self.registers[2].wrapping_add(immediate)),
                        m,
                    )
                }
            } else if funct3 == 2 || funct3 == 3 {
                let address = self.registers[high].wrapping_add(memory_offset(instruction, double));
                self.loading::<B>(m, pc, low, address, width, extend)
            } else if funct3 == 6 || funct3 == 7 {
                let address = self.registers[high].wrapping_add(memory_offset(instruction, double));
                self.storing::<B>(m, pc, address, width, self.registers[low])
            } else if funct3 == 4 {
                match small_access(instruction) {
                    None => refused,
                    Some((size, offset, store, signed)) => {
                        let address = self.registers[high].wrapping_add(offset);
                        if store {
                            self.storing::<B>(m, pc, address, size, self.registers[low])
                        } else {
                            self.loading::<B>(
                                m,
                                pc,
                                low,
                                address,
                                size,
                                if signed {
                                    16
                                } else {
                                    64
                                },
                            )
                        }
                    },
                }
            } else {
                refused
            }
        } else if quadrant == 1 {
            if funct3 == 0 {
                (
                    Ok(following),
                    self.with_register(
                        rd,
                        self.registers[rd].wrapping_add(six_bit_immediate(instruction)),
                    ),
                    m,
                )
            } else if funct3 == 1 {
                (
                    Ok(following),
                    self.with_register(
                        rd,
                        alu::sign_extended(
                            self.registers[rd].wrapping_add(six_bit_immediate(instruction)),
                            32,
                        ),
                    ),
                    m,
                )
            } else if funct3 == 2 {
                (Ok(following), self.with_register(rd, six_bit_immediate(instruction)), m)
            } else if funct3 == 3 && rd == 2 {
                let immediate = stack_move_offset(instruction);
                if immediate == 0 {
                    refused
                } else {
                    (
                        Ok(following),
                        self.with_register(2, self.registers[2].wrapping_add(immediate)),
                        m,
                    )
                }
            } else if funct3 == 3 {
                let immediate = upper_immediate(instruction);
                if rd == 0 || immediate == 0 {
                    refused
                } else {
                    (Ok(following), self.with_register(rd, immediate), m)
                }
            } else if funct3 == 4 {
                let left = self.registers[high];
                let kind = field(instruction, 10, 2);
                let result = if kind == 0 {
                    Ok(left >> six_bit_shift(instruction))
                } else if kind == 1 {
                    Ok(((left as i64) >> six_bit_shift(instruction)) as u64)
                } else if kind == 2 {
                    Ok(left & six_bit_immediate(instruction))
                } else {
                    alu_result(instruction, left, self.registers[low])
                };
                match result {
                    Ok(value) => (Ok(following), self.with_register(high, value), m),
                    Err(trap) => (Err(trap), self, m),
                }
            } else if funct3 == 5 {
                self.going::<B>(m, pc.wrapping_add(jump_offset(instruction)))
            } else if (self.registers[high] == 0) == (funct3 == 6) {
                self.going::<B>(m, pc.wrapping_add(branch_offset(instruction)))
            } else {
                (Ok(following), self, m)
            }
        } else if quadrant == 2 {
            if funct3 == 0 {
                (
                    Ok(following),
                    self.with_register(rd, self.registers[rd] << six_bit_shift(instruction)),
                    m,
                )
            } else if funct3 == 2 || funct3 == 3 {
                if rd == 0 {
                    refused
                } else {
                    let address = self.registers[2].wrapping_add(
                        stack_load_offset(instruction, double),
                    );
                    self.loading::<B>(m, pc, rd, address, width, extend)
                }
            } else if funct3 == 4 {
                self.execute_compressed_jump::<B>(m, pc, instruction)
            } else if funct3 == 6 || funct3 == 7 {
                let address = self.registers[2].wrapping_add(
                    stack_store_offset(instruction, double),
                );
                self.storing::<B>(
                    m,
                    pc,
                    address,
                    width,
                    self.registers[full_field(instruction, 2) as int],
                )
            } else {
                refused
            }
        } else {
            refused
        }
    }
}

impl Cpu {
    fn load_into<B: CpuBus>(
        &mut self,
        bus: &mut B,
        pc: u64,
        rd: usize,
        address: u64,
        width: AccessWidth,
        extend: u32,
    ) -> (r: Result<InstructionOutcome, Trap>)
        requires
            B::valid(old(bus).model()),
            rd < 32,
            0 < extend <= 64,
        ensures
            (r, final(self)@, final(bus).model()) == old(self)@.loading::<B>(
                old(bus).model(),
                pc,
                rd as int,
                address,
                width,
                extend,
            ),
            B::valid(final(bus).model()),
    {
        match self.load(bus, address, width, Access::Read) {
            Ok(value) => {
                let extended: u64 = if extend == 64 {
                    value
                } else {
                    sign_extend(value, extend)
                };
                self.set_register(rd, extended);
                Ok(InstructionOutcome::sequential(pc.wrapping_add(2)))
            },
            Err(trap) => Err(trap),
        }
    }

    fn store_from<B: CpuBus>(
        &mut self,
        bus: &mut B,
        pc: u64,
        address: u64,
        width: AccessWidth,
        value: u64,
    ) -> (r: Result<InstructionOutcome, Trap>)
        requires
            B::valid(old(bus).model()),
        ensures
            (r, final(self)@, final(bus).model()) == old(self)@.storing::<B>(
                old(bus).model(),
                pc,
                address,
                width,
                value,
            ),
            B::valid(final(bus).model()),
    {
        match self.store(bus, address, width, value) {
            Ok(()) => {
                self.control.reservation = None;
                Ok(InstructionOutcome::sequential(pc.wrapping_add(2)))
            },
            Err(trap) => Err(trap),
        }
    }

    fn execute_zcb_memory<B: CpuBus>(&mut self, bus: &mut B, pc: u64, instruction: u16) -> (r: Result<
        InstructionOutcome,
        Trap,
    >)
        requires
            B::valid(old(bus).model()),
            instruction % 4 == 0,
            instruction >> 13 == 4,
        ensures
            (r, final(self)@, final(bus).model()) == old(self)@.execute_compressed::<B>(
                old(bus).model(),
                pc,
                instruction,
            ),
            B::valid(final(bus).model()),
    {
        let rd: usize = compact_register(instruction, 2);
        let rs1: usize = compact_register(instruction, 7);
        let operation: u64 = bits(instruction, 10, 3);
        let flag: bool = bits(instruction, 6, 1) != 0;
        let (width, offset, store, signed): (AccessWidth, u64, bool, bool) = match operation {
            0 => (AccessWidth::Byte, bits(instruction, 5, 2), false, false),
            1 => (AccessWidth::HalfWord, bits(instruction, 5, 1) << 1, false, flag),
            2 => (AccessWidth::Byte, bits(instruction, 5, 2), true, false),
            3 => {
                if flag {
                    return Err(illegal(instruction));
                }
                (AccessWidth::HalfWord, bits(instruction, 5, 1) << 1, true, false)
            },
            _ => {
                return Err(illegal(instruction));
            },
        };
        let address: u64 = self.registers[rs1].wrapping_add(offset);
        if store {
            let value: u64 = self.registers[rd];
            self.store_from(bus, pc, address, width, value)
        } else {
            let extend: u32 = if signed {
                16
            } else {
                64
            };
            self.load_into(bus, pc, rd, address, width, extend)
        }
    }

    fn execute_compressed_lui<B: CpuBus>(&mut self, pc: u64, instruction: u16) -> (r: Result<
        InstructionOutcome,
        Trap,
    >)
        requires
            instruction % 4 == 1,
            instruction >> 13 == 3,
        ensures
            forall|m: B::Model| #[trigger]
                old(self)@.execute_compressed::<B>(m, pc, instruction) == (r, final(self)@, m),
    {
        let rd: usize = register(instruction, 7);
        if rd == 2 {
            let immediate: u64 = addi16sp_immediate(instruction);
            if immediate == 0 {
                return Err(illegal(instruction));
            }
            let value: u64 = self.registers[2].wrapping_add(immediate);
            self.set_register(2, value);
        } else {
            let immediate: u64 = lui_immediate(instruction);
            if rd == 0 || immediate == 0 {
                return Err(illegal(instruction));
            }
            self.set_register(rd, immediate);
        }
        Ok(InstructionOutcome::sequential(pc.wrapping_add(2)))
    }

    fn execute_compressed_alu<B: CpuBus>(&mut self, pc: u64, instruction: u16) -> (r: Result<
        InstructionOutcome,
        Trap,
    >)
        requires
            instruction % 4 == 1,
            instruction >> 13 == 4,
        ensures
            forall|m: B::Model| #[trigger]
                old(self)@.execute_compressed::<B>(m, pc, instruction) == (r, final(self)@, m),
    {
        let rd: usize = compact_register(instruction, 7);
        let left: u64 = self.registers[rd];
        let kind: u64 = bits(instruction, 10, 2);
        let result: Result<u64, Trap> = if kind == 0 {
            Ok(left >> shift_amount(instruction))
        } else if kind == 1 {
            Ok(((left as i64) >> shift_amount(instruction)) as u64)
        } else if kind == 2 {
            Ok(left & ci_immediate(instruction))
        } else {
            alu_value(instruction, left, self.registers[compact_register(instruction, 2)])
        };
        match result {
            Ok(value) => {
                self.set_register(rd, value);
                Ok(InstructionOutcome::sequential(pc.wrapping_add(2)))
            },
            Err(trap) => Err(trap),
        }
    }

    fn execute_compressed_jump<B: CpuBus>(&mut self, pc: u64, instruction: u16) -> (r: Result<
        InstructionOutcome,
        Trap,
    >)
        ensures
            forall|m: B::Model| #[trigger]
                old(self)@.execute_compressed_jump::<B>(m, pc, instruction) == (
                    r,
                    final(self)@,
                    m,
                ),
    {
        let rd: usize = register(instruction, 7);
        let rs2: usize = register(instruction, 2);
        let high: bool = bits(instruction, 12, 1) != 0;
        if rs2 == 0 {
            if rd == 0 {
                if high {
                    return Err(Trap { exception: Exception::Breakpoint, value: 0 });
                }
                return Err(illegal(instruction));
            }
            let target: u64 = self.registers[rd] & !1;
            if high {
                self.set_register(1, pc.wrapping_add(2));
            }
            return Ok(InstructionOutcome::exit(target, true));
        }
        let value: u64 = if high {
            self.registers[rd].wrapping_add(self.registers[rs2])
        } else {
            self.registers[rs2]
        };
        self.set_register(rd, value);
        Ok(InstructionOutcome::sequential(pc.wrapping_add(2)))
    }

    #[verifier::rlimit(60)]
    pub fn execute_compressed<B: CpuBus>(&mut self, bus: &mut B, pc: u64, instruction: u16) -> (r:
        Result<InstructionOutcome, Trap>)
        requires
            B::valid(old(bus).model()),
        ensures
            (r, final(self)@, final(bus).model()) == old(self)@.execute_compressed::<B>(
                old(bus).model(),
                pc,
                instruction,
            ),
            B::valid(final(bus).model()),
    {
        let quadrant: u16 = instruction % 4;
        let funct3: u16 = instruction >> 13;
        proof {
            assert(instruction >> 13 < 8) by (bit_vector);
        }
        let next_pc: u64 = pc.wrapping_add(2);
        let double: bool = funct3 % 2 == 1;
        let width: AccessWidth = if double {
            AccessWidth::DoubleWord
        } else {
            AccessWidth::Word
        };
        let extend: u32 = if double {
            64
        } else {
            32
        };
        match (quadrant, funct3) {
            (0, 0) => {
                let immediate: u64 = addi4spn_immediate(instruction);
                if immediate == 0 {
                    return Err(illegal(instruction));
                }
                let value: u64 = self.registers[2].wrapping_add(immediate);
                self.set_register(compact_register(instruction, 2), value);
            },
            (0, 2) | (0, 3) => {
                let base: u64 = self.registers[compact_register(instruction, 7)];
                let address: u64 = base.wrapping_add(register_offset(instruction, double));
                return self.load_into(
                    bus,
                    pc,
                    compact_register(instruction, 2),
                    address,
                    width,
                    extend,
                );
            },
            (0, 6) | (0, 7) => {
                let base: u64 = self.registers[compact_register(instruction, 7)];
                let address: u64 = base.wrapping_add(register_offset(instruction, double));
                let value: u64 = self.registers[compact_register(instruction, 2)];
                return self.store_from(bus, pc, address, width, value);
            },
            (0, 4) => {
                return self.execute_zcb_memory(bus, pc, instruction);
            },
            (1, 0) => {
                let rd: usize = register(instruction, 7);
                let value: u64 = self.registers[rd].wrapping_add(ci_immediate(instruction));
                self.set_register(rd, value);
            },
            (1, 1) => {
                let rd: usize = register(instruction, 7);
                let value: u64 = self.registers[rd].wrapping_add(ci_immediate(instruction));
                self.set_register(rd, sign_extend(value, 32));
            },
            (1, 2) => {
                self.set_register(register(instruction, 7), ci_immediate(instruction));
            },
            (1, 3) => {
                return self.execute_compressed_lui::<B>(pc, instruction);
            },
            (1, 4) => {
                return self.execute_compressed_alu::<B>(pc, instruction);
            },
            (1, 5) => {
                return Ok(
                    InstructionOutcome::exit(pc.wrapping_add(cj_immediate(instruction)), true),
                );
            },
            (1, _) => {
                let rs1: usize = compact_register(instruction, 7);
                if (self.registers[rs1] == 0) == (funct3 == 6) {
                    return Ok(
                        InstructionOutcome::exit(pc.wrapping_add(cb_immediate(instruction)), true),
                    );
                }
            },
            (2, 0) => {
                let rd: usize = register(instruction, 7);
                let value: u64 = self.registers[rd] << shift_amount(instruction);
                self.set_register(rd, value);
            },
            (2, 2) | (2, 3) => {
                let rd: usize = register(instruction, 7);
                if rd == 0 {
                    return Err(illegal(instruction));
                }
                let address: u64 = self.registers[2].wrapping_add(
                    stack_load_immediate(instruction, double),
                );
                return self.load_into(bus, pc, rd, address, width, extend);
            },
            (2, 4) => {
                return self.execute_compressed_jump::<B>(pc, instruction);
            },
            (2, 6) | (2, 7) => {
                let address: u64 = self.registers[2].wrapping_add(
                    stack_store_immediate(instruction, double),
                );
                let value: u64 = self.registers[register(instruction, 2)];
                return self.store_from(bus, pc, address, width, value);
            },
            _ => {
                return Err(illegal(instruction));
            },
        }
        Ok(InstructionOutcome::sequential(next_pc))
    }
}

} // verus!
