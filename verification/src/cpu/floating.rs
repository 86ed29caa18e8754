//! The F and D extensions.

use vstd::prelude::*;
use crate::cpu::alu::{decode_i_immediate, decode_s_immediate, illegal, register_index, sign_extend};
use crate::cpu::mmu::Access;
use crate::cpu::{Control, Cpu, CpuBus, CpuModel, Trap, MSTATUS_FS};
use crate::memory::AccessWidth;
use crate::softfp;
use crate::softfp::{Format, Outcome, Relation, RoundingMode, Whole};

verus! {

/// The upper half of a register that holds a binary32 number.
pub const F32_BOX: u64 = 0xffff_ffff_0000_0000;
pub const F32_QNAN: u64 = 0x7fc0_0000;

/// The format that an instruction names.
pub open spec fn format_of(code: u32) -> Format {
    if code == 0 {
        Format::Single
    } else {
        Format::Double
    }
}

fn format_code(code: u32) -> (r: Format)
    ensures
        r == format_of(code),
{
    if code == 0 {
        Format::Single
    } else {
        Format::Double
    }
}

/// The value that a conversion to an integer puts in a register. Words are
/// sign extended, unsigned ones too.
pub open spec fn integer_register(kind: usize, value: i128) -> u64 {
    if kind == 1 {
        crate::cpu::alu::sign_extended(value as u64, 32)
    } else {
        crate::cpu::alu::encoded(value as int)
    }
}

/// The integer that a conversion takes from a register.
pub open spec fn source_integer(kind: usize, source: u64) -> int {
    if kind == 0 {
        crate::cpu::alu::signed_value32(source as u32)
    } else if kind == 1 {
        (source as u32) as int
    } else if kind == 2 {
        crate::cpu::alu::signed_value(source)
    } else {
        source as int
    }
}

impl CpuModel {
    /// An operand in the given format. A binary32 number that is not boxed
    /// reads as a NaN.
    pub open spec fn fp_operand(self, f: Format, register: int) -> u64 {
        let value = self.fp_registers[register];
        match f {
            Format::Double => value,
            Format::Single => if value / 0x1_0000_0000 == 0xffff_ffff {
                value % 0x1_0000_0000
            } else {
                F32_QNAN
            },
        }
    }

    pub open spec fn fp_dirty(self) -> CpuModel {
        self.with_control(
            Control { mstatus: self.control.mstatus | MSTATUS_FS, ..self.control },
        )
    }

    pub open spec fn with_fp(self, f: Format, register: int, bits: u64) -> CpuModel {
        let value = match f {
            Format::Double => bits,
            Format::Single => F32_BOX | bits,
        };
        CpuModel { fp_registers: self.fp_registers.update(register, value), ..self }.fp_dirty()
    }

    /// The CPU with exception flags added.
    pub open spec fn with_flags(self, raised: u32) -> CpuModel {
        let fflags = self.control.fflags | ((raised % 32) as u8);
        let next = self.with_control(Control { fflags, ..self.control });
        if fflags != self.control.fflags {
            next.fp_dirty()
        } else {
            next
        }
    }

    pub open spec fn rounding(self, encoded: u32, instruction: u32) -> Result<RoundingMode, Trap> {
        let mode = if encoded == 7 {
            self.control.frm as u32
        } else {
            encoded
        };
        match mode {
            0 => Ok(RoundingMode::NearEven),
            1 => Ok(RoundingMode::Zero),
            2 => Ok(RoundingMode::Down),
            3 => Ok(RoundingMode::Up),
            4 => Ok(RoundingMode::NearMaxMag),
            _ => Err(crate::cpu::alu::illegal_trap(instruction)),
        }
    }

    pub open spec fn with_outcome(self, f: Format, register: int, outcome: Outcome) -> CpuModel {
        self.with_fp(f, register, outcome.bits).with_flags(outcome.raised)
    }

    /// A load or store of a floating-point register.
    pub open spec fn execute_fp_memory<B: CpuBus>(
        self,
        m: B::Model,
        instruction: u32,
        opcode: u32,
    ) -> (Result<(), Trap>, CpuModel, B::Model) {
        let refused = (Err(crate::cpu::alu::illegal_trap(instruction)), self, m);
        let funct3 = (instruction >> 12) % 8;
        let base = self.registers[crate::cpu::alu::register_field(instruction, 15) as int];
        if !self.control.fp_on() || (funct3 != 2 && funct3 != 3) {
            refused
        } else {
            let width = if funct3 == 2 {
                AccessWidth::Word
            } else {
                AccessWidth::DoubleWord
            };
            if opcode == 0x07 {
                let rd = crate::cpu::alu::register_field(instruction, 7) as int;
                let address = base.wrapping_add(crate::cpu::alu::i_immediate(instruction));
                match self.load::<B>(m, address, width, Access::Read) {
                    (Ok(value), cpu, n) => (
                        Ok(()),
                        if funct3 == 2 {
                            cpu.with_fp(Format::Single, rd, value % 0x1_0000_0000)
                        } else {
                            cpu.with_fp(Format::Double, rd, value)
                        },
                        n,
                    ),
                    (Err(trap), cpu, n) => (Err(trap), cpu, n),
                }
            } else {
                let rs2 = crate::cpu::alu::register_field(instruction, 20) as int;
                let address = base.wrapping_add(crate::cpu::alu::s_immediate(instruction));
                let value = if funct3 == 2 {
                    self.fp_registers[rs2] % 0x1_0000_0000
                } else {
                    self.fp_registers[rs2]
                };
                self.store::<B>(m, address, width, value)
            }
        }
    }

    /// A fused multiplication and addition.
    pub open spec fn execute_fused(self, instruction: u32, opcode: u32) -> (
        Result<(), Trap>,
        CpuModel,
    ) {
        let code = (instruction >> 25) % 4;
        let f = format_of(code);
        let rd = crate::cpu::alu::register_field(instruction, 7) as int;
        let a = self.fp_operand(f, crate::cpu::alu::register_field(instruction, 15) as int);
        let b = self.fp_operand(f, crate::cpu::alu::register_field(instruction, 20) as int);
        let c = self.fp_operand(f, crate::cpu::alu::register_field(instruction, 27) as int);
        if code > 1 {
            (Err(crate::cpu::alu::illegal_trap(instruction)), self)
        } else {
            match self.rounding((instruction >> 12) % 8, instruction) {
                Err(trap) => (Err(trap), self),
                Ok(rm) => {
                    let left = if opcode == 0x4b || opcode == 0x4f {
                        softfp::negated(a, f)
                    } else {
                        a
                    };
                    let addend = if opcode == 0x47 || opcode == 0x4f {
                        softfp::negated(c, f)
                    } else {
                        c
                    };
                    (Ok(()), self.with_outcome(f, rd, softfp::fused(rm, left, b, addend, f)))
                },
            }
        }
    }

    /// The operations of the main floating-point opcode, by their number.
    pub open spec fn execute_operation(
        self,
        instruction: u32,
        operation: u32,
        f: Format,
        rd: int,
        rs1: usize,
        rs2: usize,
        rm: u32,
    ) -> (Result<(), Trap>, CpuModel) {
        let a = self.fp_operand(f, rs1 as int);
        let b = self.fp_operand(f, rs2 as int);
        let refused = (Err(crate::cpu::alu::illegal_trap(instruction)), self);
        let source = self.registers[rs1 as int];
        if operation <= 3 || operation == 8 || operation == 11 || operation == 24 || operation
            == 26 {
            match self.rounding(rm, instruction) {
                Err(trap) => if operation == 11 && rs2 != 0 {
                    refused
                } else {
                    (Err(trap), self)
                },
                Ok(mode) => if operation == 0 {
                    (Ok(()), self.with_outcome(f, rd, softfp::sum(mode, a, b, f)))
                } else if operation == 1 {
                    (
                        Ok(()),
                        self.with_outcome(f, rd, softfp::sum(mode, a, softfp::negated(b, f), f)),
                    )
                } else if operation == 2 {
                    (Ok(()), self.with_outcome(f, rd, softfp::product(mode, a, b, f)))
                } else if operation == 3 {
                    (Ok(()), self.with_outcome(f, rd, softfp::quotient(mode, a, b, f)))
                } else if operation == 11 {
                    if rs2 != 0 {
                        refused
                    } else {
                        (Ok(()), self.with_outcome(f, rd, softfp::square_root(mode, a, f)))
                    }
                } else if operation == 8 {
                    // Between the formats; a widening ignores the mode.
                    if f is Single && rs2 == 1 {
                        let wide = self.fp_operand(Format::Double, rs1 as int);
                        (
                            Ok(()),
                            self.with_outcome(
                                f,
                                rd,
                                softfp::converted(mode, wide, Format::Double, Format::Single),
                            ),
                        )
                    } else if f is Double && rs2 == 0 {
                        let narrow = self.fp_operand(Format::Single, rs1 as int);
                        (
                            Ok(()),
                            self.with_outcome(
                                f,
                                rd,
                                softfp::converted(
                                    RoundingMode::NearEven,
                                    narrow,
                                    Format::Single,
                                    Format::Double,
                                ),
                            ),
                        )
                    } else {
                        refused
                    }
                } else if rs2 > 3 {
                    refused
                } else if operation == 24 {
                    let whole = softfp::integer_of(
                        mode,
                        a,
                        f,
                        rs2 == 0 || rs2 == 2,
                        if rs2 < 2 {
                            32
                        } else {
                            64
                        },
                    );
                    (
                        Ok(()),
                        self.with_register(rd, integer_register(rs2, whole.value)).with_flags(
                            whole.raised,
                        ),
                    )
                } else {
                    (
                        Ok(()),
                        self.with_outcome(
                            f,
                            rd,
                            softfp::float_of(mode, source_integer(rs2, source), f),
                        ),
                    )
                },
            }
        } else if operation == 4 && rm <= 2 {
            // Sign injection: copied, inverted or combined.
            let sign = if rm == 0 {
                softfp::negative(b, f)
            } else if rm == 1 {
                !softfp::negative(b, f)
            } else {
                softfp::negative(a, f) != softfp::negative(b, f)
            };
            (Ok(()), self.with_fp(f, rd, softfp::signed_bits(sign, softfp::magnitude(a, f), f)))
        } else if operation == 5 && rm <= 1 {
            (Ok(()), self.with_outcome(f, rd, softfp::extreme(a, b, rm == 1, f)))
        } else if operation == 20 && rm <= 2 {
            let order = softfp::relation(a, b, f);
            let holds = if rm == 0 {
                order is Less || order is Equal
            } else if rm == 1 {
                order is Less
            } else {
                order is Equal
            };
            (
                Ok(()),
                self.with_register(rd, crate::cpu::alu::truth(holds)).with_flags(
                    softfp::relation_raises(a, b, rm == 2, f),
                ),
            )
        } else if operation == 28 && rs2 == 0 && rm <= 1 {
            let value = if rm == 1 {
                softfp::class_bit(a, f) as u64
            } else if f is Single {
                crate::cpu::alu::sign_extended(self.fp_registers[rs1 as int] % 0x1_0000_0000, 32)
            } else {
                self.fp_registers[rs1 as int]
            };
            (Ok(()), self.with_register(rd, value))
        } else if operation == 30 && rs2 == 0 && rm == 0 {
            (
                Ok(()),
                self.with_fp(
                    f,
                    rd,
                    if f is Single {
                        source % 0x1_0000_0000
                    } else {
                        source
                    },
                ),
            )
        } else {
            refused
        }
    }

    /// A floating-point computation.
    pub open spec fn execute_floating(self, instruction: u32, opcode: u32) -> (
        Result<(), Trap>,
        CpuModel,
    ) {
        let code = (instruction >> 25) % 4;
        if !self.control.fp_on() {
            (Err(crate::cpu::alu::illegal_trap(instruction)), self)
        } else if opcode != 0x53 {
            self.execute_fused(instruction, opcode)
        } else if code > 1 {
            (Err(crate::cpu::alu::illegal_trap(instruction)), self)
        } else {
            self.execute_operation(
                instruction,
                (instruction >> 25) / 4,
                format_of(code),
                crate::cpu::alu::register_field(instruction, 7) as int,
                crate::cpu::alu::register_field(instruction, 15),
                crate::cpu::alu::register_field(instruction, 20),
                (instruction >> 12) % 8,
            )
        }
    }
}

impl Cpu {
    fn read_fp(&self, f: Format, register: usize) -> (r: u64)
        requires
            register < 32,
        ensures
            r == self@.fp_operand(f, register as int),
            f.holds(r),
    {
        let value: u64 = self.fp_registers[register];
        match f {
            Format::Double => value,
            Format::Single => if value / 0x1_0000_0000 == 0xffff_ffff {
                value % 0x1_0000_0000
            } else {
                F32_QNAN
            },
        }
    }

    fn write_fp(&mut self, f: Format, register: usize, bits: u64)
        requires
            register < 32,
        ensures
            final(self)@ == old(self)@.with_fp(f, register as int, bits),
    {
        let value: u64 = match f {
            Format::Double => bits,
            Format::Single => F32_BOX | bits,
        };
        self.fp_registers[register] = value;
        self.mark_fp_dirty();
    }

    fn rounding_mode(&self, encoded: u32, instruction: u32) -> (r: Result<RoundingMode, Trap>)
        ensures
            r == self@.rounding(encoded, instruction),
    {
        let mode: u32 = if encoded == 7 {
            self.control.frm as u32
        } else {
            encoded
        };
        match mode {
            0 => Ok(RoundingMode::NearEven),
            1 => Ok(RoundingMode::Zero),
            2 => Ok(RoundingMode::Down),
            3 => Ok(RoundingMode::Up),
            4 => Ok(RoundingMode::NearMaxMag),
            _ => Err(illegal(instruction)),
        }
    }

    fn merge_flags(&mut self, raised: u32)
        ensures
            final(self)@ == old(self)@.with_flags(raised),
    {
        let before: u8 = self.control.fflags;
        self.control.fflags = before | ((raised % 32) as u8);
        if self.control.fflags != before {
            self.mark_fp_dirty();
        }
    }

    fn settle(&mut self, f: Format, register: usize, outcome: Outcome)
        requires
            register < 32,
        ensures
            final(self)@ == old(self)@.with_outcome(f, register as int, outcome),
    {
        self.write_fp(f, register, outcome.bits);
        self.merge_flags(outcome.raised);
    }

    pub fn execute_fp_memory<B: CpuBus>(
        &mut self,
        bus: &mut B,
        instruction: u32,
        opcode: u32,
    ) -> (r: Result<(), Trap>)
        requires
            B::valid(old(bus).model()),
        ensures
            (r, final(self)@, final(bus).model()) == old(self)@.execute_fp_memory::<B>(
                old(bus).model(),
                instruction,
                opcode,
            ),
            B::valid(final(bus).model()),
    {
        let funct3: u32 = (instruction >> 12) % 8;
        if !self.fp_enabled() || (funct3 != 2 && funct3 != 3) {
            return Err(illegal(instruction));
        }
        let base: u64 = self.registers[register_index(instruction, 15)];
        let single: bool = funct3 == 2;
        let width: AccessWidth = if single {
            AccessWidth::Word
        } else {
            AccessWidth::DoubleWord
        };
        if opcode == 0x07 {
            let rd: usize = register_index(instruction, 7);
            let address: u64 = base.wrapping_add(decode_i_immediate(instruction));
            match self.load(bus, address, width, Access::Read) {
                Ok(value) => {
                    if single {
                        self.write_fp(Format::Single, rd, value % 0x1_0000_0000);
                    } else {
                        self.write_fp(Format::Double, rd, value);
                    }
                    Ok(())
                },
                Err(trap) => Err(trap),
            }
        } else {
            let bits: u64 = self.fp_registers[register_index(instruction, 20)];
            let address: u64 = base.wrapping_add(decode_s_immediate(instruction));
            let value: u64 = if single {
                bits % 0x1_0000_0000
            } else {
                bits
            };
            self.store(bus, address, width, value)
        }
    }

    pub fn execute_floating(&mut self, instruction: u32, opcode: u32) -> (r: Result<(), Trap>)
        ensures
            (r, final(self)@) == old(self)@.execute_floating(instruction, opcode),
    {
        if !self.fp_enabled() {
            return Err(illegal(instruction));
        }
        if opcode != 0x53 {
            return self.execute_fused(instruction, opcode);
        }
        let code: u32 = (instruction >> 25) % 4;
        if code > 1 {
            return Err(illegal(instruction));
        }
        let f: Format = format_code(code);
        let operation: u32 = (instruction >> 25) / 4;
        let rd: usize = register_index(instruction, 7);
        let rs1: usize = register_index(instruction, 15);
        let rs2: usize = register_index(instruction, 20);
        let rm: u32 = (instruction >> 12) % 8;
        match operation {
            0 | 1 | 2 | 3 => self.execute_basic_fp(instruction, operation, f, rd, rs1, rs2, rm),
            4 => self.execute_sign(f, rd, rs1, rs2, rm, instruction),
            5 => self.execute_min_max(f, rd, rs1, rs2, rm, instruction),
            8 => self.execute_format_conversion(instruction, f, rd, rs1, rs2, rm),
            11 => self.execute_sqrt(instruction, f, rd, rs1, rs2, rm),
            20 => self.execute_compare(f, rd, rs1, rs2, rm, instruction),
            24 => self.execute_float_to_int(instruction, f, rd, rs1, rs2, rm),
            26 => self.execute_int_to_float(instruction, f, rd, rs1, rs2, rm),
            28 => self.execute_move_or_class(f, rd, rs1, rs2, rm, instruction),
            30 => {
                if rs2 != 0 || rm != 0 {
                    return Err(illegal(instruction));
                }
                let source: u64 = self.registers[rs1];
                let bits: u64 = match f {
                    Format::Single => source % 0x1_0000_0000,
                    Format::Double => source,
                };
                self.write_fp(f, rd, bits);
                Ok(())
            },
            _ => Err(illegal(instruction)),
        }
    }

    fn execute_fused(&mut self, instruction: u32, opcode: u32) -> (r: Result<(), Trap>)
        ensures
            (r, final(self)@) == old(self)@.execute_fused(instruction, opcode),
    {
        let code: u32 = (instruction >> 25) % 4;
        if code > 1 {
            return Err(illegal(instruction));
        }
        let f: Format = format_code(code);
        let rm: RoundingMode = match self.rounding_mode((instruction >> 12) % 8, instruction) {
            Ok(rm) => rm,
            Err(trap) => {
                return Err(trap);
            },
        };
        let a: u64 = self.read_fp(f, register_index(instruction, 15));
        let b: u64 = self.read_fp(f, register_index(instruction, 20));
        let c: u64 = self.read_fp(f, register_index(instruction, 27));
        let left: u64 = if opcode == 0x4b || opcode == 0x4f {
            softfp::negate(a, f)
        } else {
            a
        };
        let addend: u64 = if opcode == 0x47 || opcode == 0x4f {
            softfp::negate(c, f)
        } else {
            c
        };
        let outcome: Outcome = softfp::fma(left, b, addend, rm, f);
        self.settle(f, register_index(instruction, 7), outcome);
        Ok(())
    }

    fn execute_basic_fp(
        &mut self,
        instruction: u32,
        operation: u32,
        f: Format,
        rd: usize,
        rs1: usize,
        rs2: usize,
        rm: u32,
    ) -> (r: Result<(), Trap>)
        requires
            operation <= 3,
            rd < 32,
            rs1 < 32,
            rs2 < 32,
        ensures
            (r, final(self)@) == old(self)@.execute_operation(
                instruction,
                operation,
                f,
                rd as int,
                rs1,
                rs2,
                rm,
            ),
    {
        let mode: RoundingMode = match self.rounding_mode(rm, instruction) {
            Ok(mode) => mode,
            Err(trap) => {
                return Err(trap);
            },
        };
        let a: u64 = self.read_fp(f, rs1);
        let b: u64 = self.read_fp(f, rs2);
        let outcome: Outcome = match operation {
            0 => crate::softfp::add(a, b, mode, f),
            1 => crate::softfp::add(a, softfp::negate(b, f), mode, f),
            2 => crate::softfp::mul(a, b, mode, f),
            _ => softfp::div(a, b, mode, f),
        };
        self.settle(f, rd, outcome);
        Ok(())
    }

    fn execute_sqrt(
        &mut self,
        instruction: u32,
        f: Format,
        rd: usize,
        rs1: usize,
        rs2: usize,
        rm: u32,
    ) -> (r: Result<(), Trap>)
        requires
            rd < 32,
            rs1 < 32,
            rs2 < 32,
        ensures
            (r, final(self)@) == old(self)@.execute_operation(
                instruction,
                11,
                f,
                rd as int,
                rs1,
                rs2,
                rm,
            ),
    {
        if rs2 != 0 {
            return Err(illegal(instruction));
        }
        match self.rounding_mode(rm, instruction) {
            Ok(mode) => {
                let outcome: Outcome = softfp::sqrt(self.read_fp(f, rs1), mode, f);
                self.settle(f, rd, outcome);
                Ok(())
            },
            Err(trap) => Err(trap),
        }
    }

    fn execute_sign(
        &mut self,
        f: Format,
        rd: usize,
        rs1: usize,
        rs2: usize,
        rm: u32,
        instruction: u32,
    ) -> (r: Result<(), Trap>)
        requires
            rd < 32,
            rs1 < 32,
            rs2 < 32,
        ensures
            (r, final(self)@) == old(self)@.execute_operation(
                instruction,
                4,
                f,
                rd as int,
                rs1,
                rs2,
                rm,
            ),
    {
        if rm > 2 {
            return Err(illegal(instruction));
        }
        let a: u64 = self.read_fp(f, rs1);
        let b: u64 = self.read_fp(f, rs2);
        let sign: bool = match rm {
            0 => softfp::is_negative(b, f),
            1 => !softfp::is_negative(b, f),
            _ => softfp::is_negative(a, f) != softfp::is_negative(b, f),
        };
        self.write_fp(f, rd, softfp::set_sign(a, sign, f));
        Ok(())
    }

    fn execute_min_max(
        &mut self,
        f: Format,
        rd: usize,
        rs1: usize,
        rs2: usize,
        rm: u32,
        instruction: u32,
    ) -> (r: Result<(), Trap>)
        requires
            rd < 32,
            rs1 < 32,
            rs2 < 32,
        ensures
            (r, final(self)@) == old(self)@.execute_operation(
                instruction,
                5,
                f,
                rd as int,
                rs1,
                rs2,
                rm,
            ),
    {
        if rm > 1 {
            return Err(illegal(instruction));
        }
        let outcome: Outcome = softfp::minmax(
            self.read_fp(f, rs1),
            self.read_fp(f, rs2),
            f,
            rm == 1,
        );
        self.settle(f, rd, outcome);
        Ok(())
    }

    fn execute_compare(
        &mut self,
        f: Format,
        rd: usize,
        rs1: usize,
        rs2: usize,
        rm: u32,
        instruction: u32,
    ) -> (r: Result<(), Trap>)
        requires
            rd < 32,
            rs1 < 32,
            rs2 < 32,
        ensures
            (r, final(self)@) == old(self)@.execute_operation(
                instruction,
                20,
                f,
                rd as int,
                rs1,
                rs2,
                rm,
            ),
    {
        if rm > 2 {
            return Err(illegal(instruction));
        }
        let (order, raised): (Relation, u32) = softfp::compare(
            self.read_fp(f, rs1),
            self.read_fp(f, rs2),
            f,
            rm == 2,
        );
        let holds: bool = match rm {
            0 => order == Relation::Less || order == Relation::Equal,
            1 => order == Relation::Less,
            _ => order == Relation::Equal,
        };
        self.set_register(rd, crate::cpu::alu::flag(holds));
        self.merge_flags(raised);
        Ok(())
    }

    fn execute_move_or_class(
        &mut self,
        f: Format,
        rd: usize,
        rs1: usize,
        rs2: usize,
        rm: u32,
        instruction: u32,
    ) -> (r: Result<(), Trap>)
        requires
            rd < 32,
            rs1 < 32,
            rs2 < 32,
        ensures
            (r, final(self)@) == old(self)@.execute_operation(
                instruction,
                28,
                f,
                rd as int,
                rs1,
                rs2,
                rm,
            ),
    {
        if rs2 != 0 || rm > 1 {
            return Err(illegal(instruction));
        }
        let value: u64 = if rm == 1 {
            softfp::class(self.read_fp(f, rs1), f) as u64
        } else {
            match f {
                Format::Single => sign_extend(self.fp_registers[rs1] % 0x1_0000_0000, 32),
                Format::Double => self.fp_registers[rs1],
            }
        };
        self.set_register(rd, value);
        Ok(())
    }

    fn execute_format_conversion(
        &mut self,
        instruction: u32,
        f: Format,
        rd: usize,
        rs1: usize,
        rs2: usize,
        rm: u32,
    ) -> (r: Result<(), Trap>)
        requires
            rd < 32,
            rs1 < 32,
            rs2 < 32,
        ensures
            (r, final(self)@) == old(self)@.execute_operation(
                instruction,
                8,
                f,
                rd as int,
                rs1,
                rs2,
                rm,
            ),
    {
        let mode: RoundingMode = match self.rounding_mode(rm, instruction) {
            Ok(mode) => mode,
            Err(trap) => {
                return Err(trap);
            },
        };
        let outcome: Outcome = match f {
            Format::Single => {
                if rs2 != 1 {
                    return Err(illegal(instruction));
                }
                softfp::convert_format(
                    self.read_fp(Format::Double, rs1),
                    Format::Double,
                    Format::Single,
                    mode,
                )
            },
            Format::Double => {
                if rs2 != 0 {
                    return Err(illegal(instruction));
                }
                softfp::convert_format(
                    self.read_fp(Format::Single, rs1),
                    Format::Single,
                    Format::Double,
                    RoundingMode::NearEven,
                )
            },
        };
        self.settle(f, rd, outcome);
        Ok(())
    }

    fn execute_float_to_int(
        &mut self,
        instruction: u32,
        f: Format,
        rd: usize,
        rs1: usize,
        rs2: usize,
        rm: u32,
    ) -> (r: Result<(), Trap>)
        requires
            rd < 32,
            rs1 < 32,
            rs2 < 32,
        ensures
            (r, final(self)@) == old(self)@.execute_operation(
                instruction,
                24,
                f,
                rd as int,
                rs1,
                rs2,
                rm,
            ),
    {
        let mode: RoundingMode = match self.rounding_mode(rm, instruction) {
            Ok(mode) => mode,
            Err(trap) => {
                return Err(trap);
            },
        };
        if rs2 > 3 {
            return Err(illegal(instruction));
        }
        let bits: u32 = if rs2 < 2 {
            32
        } else {
            64
        };
        let whole: Whole = softfp::float_to_int(
            self.read_fp(f, rs1),
            f,
            mode,
            rs2 == 0 || rs2 == 2,
            bits,
        );
        proof {
            softfp::lemma_integer_bounds();
        }
        let value: u64 = if rs2 == 1 {
            sign_extend(whole.value as u64, 32)
        } else if whole.value < 0 {
            (whole.value + 0x1_0000_0000_0000_0000) as u64
        } else {
            whole.value as u64
        };
        self.set_register(rd, value);
        self.merge_flags(whole.raised);
        Ok(())
    }

    fn execute_int_to_float(
        &mut self,
        instruction: u32,
        f: Format,
        rd: usize,
        rs1: usize,
        rs2: usize,
        rm: u32,
    ) -> (r: Result<(), Trap>)
        requires
            rd < 32,
            rs1 < 32,
            rs2 < 32,
        ensures
            (r, final(self)@) == old(self)@.execute_operation(
                instruction,
                26,
                f,
                rd as int,
                rs1,
                rs2,
                rm,
            ),
    {
        let mode: RoundingMode = match self.rounding_mode(rm, instruction) {
            Ok(mode) => mode,
            Err(trap) => {
                return Err(trap);
            },
        };
        let source: u64 = self.registers[rs1];
        let value: i128 = match rs2 {
            0 => crate::cpu::alu::signed32(source as u32) as i128,
            1 => (source as u32) as i128,
            2 => crate::cpu::alu::signed(source) as i128,
            3 => source as i128,
            _ => {
                return Err(illegal(instruction));
            },
        };
        let outcome: Outcome = softfp::int_to_float(value, f, mode);
        self.settle(f, rd, outcome);
        Ok(())
    }
}

} // verus!
