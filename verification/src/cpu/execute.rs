//! Instruction execution.

use vstd::prelude::*;
use crate::cpu::alu;
use crate::cpu::alu::{
    arithmetic, checked_target, decode_b_immediate, decode_i_immediate, decode_j_immediate,
    decode_s_immediate, decode_u_immediate, illegal, register_index, sign_extend, signed,
};
use crate::cpu::mmu::Access;
use crate::cpu::{
    Control, Cpu, CpuBus, CpuModel, Exception, InstructionOutcome, Privilege, Reservation, Trap,
    CSR_MINSTRET, ENVCFG_CBCFE, ENVCFG_CBIE, ENVCFG_CBZE, MSTATUS_MIE, MSTATUS_MPIE, MSTATUS_MPP,
    MSTATUS_MPRV, MSTATUS_SIE, MSTATUS_SPIE, MSTATUS_SPP, MSTATUS_TSR, MSTATUS_TVM, MSTATUS_TW,
};
use crate::memory::AccessWidth;

verus! {

/// Whether a branch is taken, or `None` for a branch that does not exist.
pub open spec fn branch_taken(funct3: u32, left: u64, right: u64) -> Option<bool> {
    match funct3 {
        0 => Some(left == right),
        1 => Some(left != right),
        4 => Some(alu::signed_value(left) < alu::signed_value(right)),
        5 => Some(alu::signed_value(left) >= alu::signed_value(right)),
        6 => Some(left < right),
        7 => Some(left >= right),
        _ => None,
    }
}

fn takes_branch(funct3: u32, left: u64, right: u64) -> (r: Option<bool>)
    ensures
        r == branch_taken(funct3, left, right),
{
    match funct3 {
        0 => Some(left == right),
        1 => Some(left != right),
        4 => Some(signed(left) < signed(right)),
        5 => Some(signed(left) >= signed(right)),
        6 => Some(left < right),
        7 => Some(left >= right),
        _ => None,
    }
}

/// Width of a load and the number of bits that are sign extended.
pub open spec fn load_kind(funct3: u32) -> Option<(AccessWidth, u32)> {
    match funct3 {
        0 => Some((AccessWidth::Byte, 8)),
        1 => Some((AccessWidth::HalfWord, 16)),
        2 => Some((AccessWidth::Word, 32)),
        3 => Some((AccessWidth::DoubleWord, 64)),
        4 => Some((AccessWidth::Byte, 64)),
        5 => Some((AccessWidth::HalfWord, 64)),
        6 => Some((AccessWidth::Word, 64)),
        _ => None,
    }
}

/// Width of a store.
pub open spec fn store_kind(funct3: u32) -> Option<AccessWidth> {
    match funct3 {
        0 => Some(AccessWidth::Byte),
        1 => Some(AccessWidth::HalfWord),
        2 => Some(AccessWidth::Word),
        3 => Some(AccessWidth::DoubleWord),
        _ => None,
    }
}

/// A loaded value, sign extended unless all its bits are kept.
pub open spec fn extended_load(value: u64, bits: u32) -> u64 {
    if bits == 64 {
        value
    } else {
        alu::sign_extended(value, bits)
    }
}

/// The part of a register that an atomic operation of a width works on.
pub open spec fn atomic_part(value: u64, width: AccessWidth) -> u64 {
    match width {
        AccessWidth::Word => value % 0x1_0000_0000,
        _ => value,
    }
}

/// The register value of what an atomic operation found in memory.
pub open spec fn atomic_found(value: u64, width: AccessWidth) -> u64 {
    match width {
        AccessWidth::Word => alu::sign_extended(value % 0x1_0000_0000, 32),
        _ => value,
    }
}

/// The signed number in the part of a register.
pub open spec fn atomic_signed(value: u64, width: AccessWidth) -> int {
    match width {
        AccessWidth::Word => alu::signed_value32(value as u32),
        _ => alu::signed_value(value),
    }
}

/// What an atomic operation writes back.
pub open spec fn atomic_value(operation: u32, old: u64, source: u64, width: AccessWidth) -> Option<
    u64,
> {
    match operation {
        0 => Some(old.wrapping_add(source)),
        1 => Some(source),
        4 => Some(old ^ source),
        8 => Some(old | source),
        12 => Some(old & source),
        16 => Some(
            if atomic_signed(old, width) < atomic_signed(source, width) {
                old
            } else {
                source
            },
        ),
        20 => Some(
            if atomic_signed(old, width) > atomic_signed(source, width) {
                old
            } else {
                source
            },
        ),
        24 => Some(
            if old < source {
                old
            } else {
                source
            },
        ),
        28 => Some(
            if old > source {
                old
            } else {
                source
            },
        ),
        _ => None,
    }
}

fn truncate_atomic(value: u64, width: AccessWidth) -> (r: u64)
    ensures
        r == atomic_part(value, width),
{
    match width {
        AccessWidth::Word => value % 0x1_0000_0000,
        _ => value,
    }
}

fn atomic_result(value: u64, width: AccessWidth) -> (r: u64)
    ensures
        r == atomic_found(value, width),
{
    match width {
        AccessWidth::Word => sign_extend(value % 0x1_0000_0000, 32),
        _ => value,
    }
}

fn signed_atomic(value: u64, width: AccessWidth) -> (r: i64)
    ensures
        r == atomic_signed(value, width),
{
    match width {
        AccessWidth::Word => alu::signed32(value as u32) as i64,
        _ => signed(value),
    }
}

fn atomic_update(operation: u32, old_value: u64, source: u64, width: AccessWidth) -> (r: Option<u64>)
    ensures
        r == atomic_value(operation, old_value, source, width),
{
    match operation {
        0 => Some(old_value.wrapping_add(source)),
        1 => Some(source),
        4 => Some(old_value ^ source),
        8 => Some(old_value | source),
        12 => Some(old_value & source),
        16 => Some(
            if signed_atomic(old_value, width) < signed_atomic(source, width) {
                old_value
            } else {
                source
            },
        ),
        20 => Some(
            if signed_atomic(old_value, width) > signed_atomic(source, width) {
                old_value
            } else {
                source
            },
        ),
        24 => Some(
            if old_value < source {
                old_value
            } else {
                source
            },
        ),
        28 => Some(
            if old_value > source {
                old_value
            } else {
                source
            },
        ),
        _ => None,
    }
}

impl CpuModel {
    pub open spec fn reserving(self, reservation: Option<Reservation>) -> CpuModel {
        self.with_control(Control { reservation, ..self.control })
    }

    /// A load or a store.
    pub open spec fn execute_memory<B: CpuBus>(self, m: B::Model, instruction: u32, opcode: u32) -> (
        Result<(), Trap>,
        CpuModel,
        B::Model,
    ) {
        let funct3 = (instruction >> 12) % 8;
        let base = self.registers[alu::register_field(instruction, 15) as int];
        let refused = (Err(alu::illegal_trap(instruction)), self, m);
        if opcode == 0x03 {
            let rd = alu::register_field(instruction, 7) as int;
            let address = base.wrapping_add(alu::i_immediate(instruction));
            match load_kind(funct3) {
                None => refused,
                Some((width, bits)) => match self.load::<B>(m, address, width, Access::Read) {
                    (Ok(value), cpu, n) => (
                        Ok(()),
                        cpu.with_register(rd, extended_load(value, bits)),
                        n,
                    ),
                    (Err(trap), cpu, n) => (Err(trap), cpu, n),
                },
            }
        } else {
            let address = base.wrapping_add(alu::s_immediate(instruction));
            let source = self.registers[alu::register_field(instruction, 20) as int];
            match store_kind(funct3) {
                None => refused,
                Some(width) => match self.store::<B>(m, address, width, source) {
                    (Ok(_), cpu, n) => (Ok(()), cpu.reserving(None), n),
                    (Err(trap), cpu, n) => (Err(trap), cpu, n),
                },
            }
        }
    }

    /// A reserved load, a conditional store, or a read-modify-write.
    pub open spec fn execute_atomic<B: CpuBus>(
        self,
        m: B::Model,
        instruction: u32,
        rd: int,
        rs1: usize,
        rs2: usize,
        width_code: u32,
    ) -> (Result<(), Trap>, CpuModel, B::Model) {
        let refused = (Err(alu::illegal_trap(instruction)), self, m);
        let width = if width_code == 2 {
            AccessWidth::Word
        } else {
            AccessWidth::DoubleWord
        };
        let address = self.registers[rs1 as int];
        let source = self.registers[rs2 as int];
        let operation = instruction >> 27;
        if width_code != 2 && width_code != 3 {
            refused
        } else if address as nat % width.size() != 0 {
            (
                Err(
                    Trap {
                        exception: if operation == 2 {
                            Exception::LoadAddressMisaligned
                        } else {
                            Exception::StoreAddressMisaligned
                        },
                        value: address,
                    },
                ),
                self,
                m,
            )
        } else if operation == 2 {
            if rs2 != 0 {
                refused
            } else {
                match self.load::<B>(m, address, width, Access::Read) {
                    (Ok(value), cpu, n) => (
                        Ok(()),
                        cpu.reserving(Some(Reservation { address, width })).with_register(
                            rd,
                            atomic_found(value, width),
                        ),
                        n,
                    ),
                    (Err(trap), cpu, n) => (Err(trap), cpu, n),
                }
            }
        } else if operation == 3 {
            let cleared = self.reserving(None);
            if self.control.reservation == Some(Reservation { address, width }) {
                match cleared.store::<B>(m, address, width, source) {
                    (Ok(_), cpu, n) => (Ok(()), cpu.with_register(rd, 0), n),
                    (Err(trap), cpu, n) => (Err(trap), cpu, n),
                }
            } else {
                match cleared.check_store::<B>(m, address, width) {
                    (Ok(_), cpu, n) => (Ok(()), cpu.with_register(rd, 1), n),
                    (Err(trap), cpu, n) => (Err(trap), cpu, n),
                }
            }
        } else {
            match self.load::<B>(m, address, width, Access::Write) {
                (Err(trap), cpu, n) => (Err(trap), cpu, n),
                (Ok(found), cpu, n) => match atomic_value(
                    operation,
                    atomic_part(found, width),
                    atomic_part(source, width),
                    width,
                ) {
                    None => (Err(alu::illegal_trap(instruction)), cpu, n),
                    Some(value) => match cpu.reserving(None).store::<B>(n, address, width, value) {
                        (Ok(_), after, o) => (
                            Ok(()),
                            after.with_register(rd, atomic_found(found, width)),
                            o,
                        ),
                        (Err(trap), after, o) => (Err(trap), after, o),
                    },
                },
            }
        }
    }

    /// The environment configuration bit that a cache-block operation needs.
    pub open spec fn cache_block_bit(operation: u32) -> u64 {
        if operation == 0 {
            ENVCFG_CBIE
        } else if operation == 4 {
            ENVCFG_CBZE
        } else {
            ENVCFG_CBCFE
        }
    }

    pub open spec fn execute_cache_block<B: CpuBus>(
        self,
        m: B::Model,
        instruction: u32,
        rd: int,
        rs1: int,
    ) -> (Result<(), Trap>, CpuModel, B::Model) {
        let operation = instruction >> 20;
        let bit = CpuModel::cache_block_bit(operation);
        let c = self.control;
        if rd != 0 || !(operation == 0 || operation == 1 || operation == 2 || operation == 4) {
            (Err(alu::illegal_trap(instruction)), self, m)
        } else if !(c.privilege is Machine) && (c.menvcfg & bit == 0 || (c.privilege is User
            && c.senvcfg & bit == 0)) {
            (Err(alu::illegal_trap(instruction)), self, m)
        } else {
            self.cache_block::<B>(m, self.registers[rs1], operation == 4)
        }
    }

    /// Returns from a supervisor trap; the result is the next address.
    pub open spec fn returned_from_supervisor(self, instruction: u32) -> (
        Result<u64, Trap>,
        CpuModel,
    ) {
        let c = self.control;
        if c.privilege is User || (c.privilege is Supervisor && c.mstatus & MSTATUS_TSR != 0) {
            (Err(alu::illegal_trap(instruction)), self)
        } else {
            let privilege = if c.mstatus & MSTATUS_SPP != 0 {
                Privilege::Supervisor
            } else {
                Privilege::User
            };
            let enabled = (c.mstatus & !MSTATUS_SIE) | (if c.mstatus & MSTATUS_SPIE != 0 {
                MSTATUS_SIE
            } else {
                0
            });
            let mstatus = (enabled | MSTATUS_SPIE) & !(MSTATUS_SPP | MSTATUS_MPRV);
            (Ok(c.sepc), self.with_control(Control { mstatus, ..c }).in_privilege(privilege))
        }
    }

    /// Returns from a machine trap; the result is the next address.
    pub open spec fn returned_from_machine(self, instruction: u32) -> (Result<u64, Trap>, CpuModel) {
        let c = self.control;
        let saved = (c.mstatus & MSTATUS_MPP) >> 11;
        if !(c.privilege is Machine) || saved == 2 || saved > 3 {
            (Err(alu::illegal_trap(instruction)), self)
        } else {
            let privilege = if saved == 0 {
                Privilege::User
            } else if saved == 1 {
                Privilege::Supervisor
            } else {
                Privilege::Machine
            };
            let enabled = (c.mstatus & !MSTATUS_MIE) | (if c.mstatus & MSTATUS_MPIE != 0 {
                MSTATUS_MIE
            } else {
                0
            });
            let popped = (enabled | MSTATUS_MPIE) & !MSTATUS_MPP;
            let mstatus = if privilege is Machine {
                popped
            } else {
                popped & !MSTATUS_MPRV
            };
            (Ok(c.mepc), self.with_control(Control { mstatus, ..c }).in_privilege(privilege))
        }
    }

    /// A system instruction without a control register; the result is the
    /// next address.
    pub open spec fn execute_privileged(self, pc: u64, instruction: u32) -> (
        Result<u64, Trap>,
        CpuModel,
    ) {
        let c = self.control;
        let refused = (Err(alu::illegal_trap(instruction)), self);
        let following = pc.wrapping_add(4);
        if instruction == 0x0000_0073 {
            (
                Err(
                    Trap {
                        exception: match c.privilege {
                            Privilege::User => Exception::UserEnvironmentCall,
                            Privilege::Supervisor => Exception::SupervisorEnvironmentCall,
                            Privilege::Machine => Exception::MachineEnvironmentCall,
                        },
                        value: 0,
                    },
                ),
                self,
            )
        } else if instruction == 0x0010_0073 {
            (Err(Trap { exception: Exception::Breakpoint, value: 0 }), self)
        } else if instruction == 0x1020_0073 {
            self.returned_from_supervisor(instruction)
        } else if instruction == 0x3020_0073 {
            self.returned_from_machine(instruction)
        } else if instruction == 0x1050_0073 {
            if !(c.privilege is Machine) && c.mstatus & MSTATUS_TW != 0 {
                refused
            } else if c.mip & c.mie == 0 {
                (Ok(following), self.with_control(Control { power_down: true, ..c }))
            } else {
                (Ok(following), self)
            }
        } else if instruction == 0x00d0_0073 || instruction == 0x01d0_0073 {
            (Ok(following), self)
        } else if instruction == 0x1800_0073 || instruction == 0x1810_0073 {
            if c.privilege is User {
                refused
            } else {
                (Ok(following), self)
            }
        } else if instruction & 0xfe00_7fff == 0x1200_0073 || instruction & 0xfe00_7fff
            == 0x1600_0073 {
            if c.privilege is User || (c.privilege is Supervisor && c.mstatus & MSTATUS_TVM != 0) {
                refused
            } else {
                (Ok(following), self.flushed())
            }
        } else {
            refused
        }
    }

    /// An access to a control register; the result is the next address and
    /// whether the instruction counts as retired.
    pub open spec fn execute_csr(
        self,
        pc: u64,
        instruction: u32,
        rd: int,
        rs1: usize,
        funct3: u32,
    ) -> (Result<(u64, bool), Trap>, CpuModel) {
        let refused = (Err(alu::illegal_trap(instruction)), self);
        let csr = (instruction >> 20) as u16;
        let source = if funct3 >= 4 {
            rs1 as u64
        } else {
            self.registers[rs1 as int]
        };
        let operation = funct3 % 4;
        let will_write = operation == 1 || rs1 != 0;
        if operation == 0 {
            refused
        } else {
            match self.csr_value(csr, will_write) {
                Err(_) => refused,
                Ok(found) => {
                    let value = if operation == 1 {
                        source
                    } else if operation == 2 {
                        found | source
                    } else {
                        found & !source
                    };
                    if !will_write {
                        (Ok((pc.wrapping_add(4), true)), self.with_register(rd, found))
                    } else if !self.csr_writable(csr) {
                        refused
                    } else {
                        (
                            Ok((pc.wrapping_add(4), csr != CSR_MINSTRET)),
                            self.csr_written(csr, value).with_register(rd, found),
                        )
                    }
                },
            }
        }
    }

    pub open spec fn execute_system(
        self,
        pc: u64,
        instruction: u32,
        rd: int,
        rs1: usize,
        funct3: u32,
    ) -> (Result<(u64, bool), Trap>, CpuModel) {
        if funct3 == 4 {
            // Operations that may be defined later write zero.
            if instruction & 0xb3c0_707f == 0x81c0_4073 || instruction & 0xb200_707f
                == 0x8200_4073 {
                (Ok((pc.wrapping_add(4), true)), self.with_register(rd, 0))
            } else {
                (Err(alu::illegal_trap(instruction)), self)
            }
        } else if funct3 == 0 {
            match self.execute_privileged(pc, instruction) {
                (Ok(next), cpu) => (Ok((next, true)), cpu),
                (Err(trap), cpu) => (Err(trap), cpu),
            }
        } else {
            self.execute_csr(pc, instruction, rd, rs1, funct3)
        }
    }

    /// Continues after an instruction that does not jump.
    pub open spec fn stepping<B: CpuBus>(
        done: (Result<(), Trap>, CpuModel, B::Model),
        next_pc: u64,
    ) -> (Result<InstructionOutcome, Trap>, CpuModel, B::Model) {
        match done {
            (Ok(_), cpu, n) => (Ok(InstructionOutcome::following(next_pc)), cpu, n),
            (Err(trap), cpu, n) => (Err(trap), cpu, n),
        }
    }

    /// The effect of one instruction.
    pub open spec fn execute<B: CpuBus>(
        self,
        m: B::Model,
        pc: u64,
        instruction: u32,
        length: u64,
    ) -> (Result<InstructionOutcome, Trap>, CpuModel, B::Model) {
        let opcode = instruction % 128;
        let rd = alu::register_field(instruction, 7) as int;
        let funct3 = (instruction >> 12) % 8;
        let rs1 = alu::register_field(instruction, 15);
        let rs2 = alu::register_field(instruction, 20);
        let left = self.registers[rs1 as int];
        let right = self.registers[rs2 as int];
        let next_pc = pc.wrapping_add(4);
        let refused = (Err(alu::illegal_trap(instruction)), self, m);
        let sequential = InstructionOutcome::following(next_pc);
        if length == 2 {
            self.execute_compressed::<B>(m, pc, instruction as u16)
        } else if opcode == 0x37 {
            (Ok(sequential), self.with_register(rd, alu::u_immediate(instruction)), m)
        } else if opcode == 0x17 {
            (
                Ok(sequential),
                self.with_register(rd, pc.wrapping_add(alu::u_immediate(instruction))),
                m,
            )
        } else if opcode == 0x6f {
            match alu::even_target(pc.wrapping_add(alu::j_immediate(instruction))) {
                Ok(target) => (
                    Ok(InstructionOutcome::leaving(target, true)),
                    self.with_register(rd, next_pc),
                    m,
                ),
                Err(trap) => (Err(trap), self, m),
            }
        } else if opcode == 0x67 && funct3 == 0 {
            match alu::even_target(left.wrapping_add(alu::i_immediate(instruction)) & !1) {
                Ok(target) => (
                    Ok(InstructionOutcome::leaving(target, true)),
                    self.with_register(rd, next_pc),
                    m,
                ),
                Err(trap) => (Err(trap), self, m),
            }
        } else if opcode == 0x63 {
            match branch_taken(funct3, left, right) {
                None => refused,
                Some(false) => (Ok(sequential), self, m),
                Some(true) => match alu::even_target(
                    pc.wrapping_add(alu::b_immediate(instruction)),
                ) {
                    Ok(target) => (Ok(InstructionOutcome::leaving(target, true)), self, m),
                    Err(trap) => (Err(trap), self, m),
                },
            }
        } else if opcode == 0x03 || opcode == 0x23 {
            CpuModel::stepping::<B>(self.execute_memory::<B>(m, instruction, opcode), next_pc)
        } else if opcode == 0x07 || opcode == 0x27 {
            CpuModel::stepping::<B>(self.execute_fp_memory::<B>(m, instruction, opcode), next_pc)
        } else if opcode == 0x43 || opcode == 0x47 || opcode == 0x4b || opcode == 0x4f || opcode
            == 0x53 {
            let (r, cpu) = self.execute_floating(instruction, opcode);
            CpuModel::stepping::<B>((r, cpu, m), next_pc)
        } else if opcode == 0x2f {
            CpuModel::stepping::<B>(
                self.execute_atomic::<B>(m, instruction, rd, rs1, rs2, funct3),
                next_pc,
            )
        } else if opcode == 0x13 || opcode == 0x1b || opcode == 0x33 || opcode == 0x3b {
            match alu::arithmetic_result(instruction, opcode, rs2, funct3, left, right) {
                Ok(value) => (Ok(sequential), self.with_register(rd, value), m),
                Err(trap) => (Err(trap), self, m),
            }
        } else if opcode == 0x0f {
            if funct3 == 0 && instruction & 0xf00f_ff80 == 0 {
                (Ok(sequential), self, m)
            } else if instruction == 0x0000_100f {
                (Ok(sequential), self, m)
            } else if funct3 == 2 {
                CpuModel::stepping::<B>(
                    self.execute_cache_block::<B>(m, instruction, rd, rs1 as int),
                    next_pc,
                )
            } else {
                refused
            }
        } else if opcode == 0x73 {
            match self.execute_system(pc, instruction, rd, rs1, funct3) {
                (Ok((next, retired)), cpu) => (
                    Ok(InstructionOutcome::leaving(next, retired)),
                    cpu,
                    m,
                ),
                (Err(trap), cpu) => (Err(trap), cpu, m),
            }
        } else {
            refused
        }
    }
}

fn proceed(done: Result<(), Trap>, next_pc: u64) -> (r: Result<InstructionOutcome, Trap>)
    ensures
        r == (match done {
            Ok(_) => Ok(InstructionOutcome::following(next_pc)),
            Err(trap) => Err(trap),
        }),
{
    match done {
        Ok(()) => Ok(InstructionOutcome::sequential(next_pc)),
        Err(trap) => Err(trap),
    }
}

impl Cpu {
    fn execute_memory<B: CpuBus>(&mut self, bus: &mut B, instruction: u32, opcode: u32) -> (r:
        Result<(), Trap>)
        requires
            B::valid(old(bus).model()),
        ensures
            (r, final(self)@, final(bus).model()) == old(self)@.execute_memory::<B>(
                old(bus).model(),
                instruction,
                opcode,
            ),
            B::valid(final(bus).model()),
    {
        let funct3: u32 = (instruction >> 12) % 8;
        let base: u64 = self.registers[register_index(instruction, 15)];
        if opcode == 0x03 {
            let rd: usize = register_index(instruction, 7);
            let address: u64 = base.wrapping_add(decode_i_immediate(instruction));
            let (width, bits): (AccessWidth, u32) = match funct3 {
                0 => (AccessWidth::Byte, 8),
                1 => (AccessWidth::HalfWord, 16),
                2 => (AccessWidth::Word, 32),
                3 => (AccessWidth::DoubleWord, 64),
                4 => (AccessWidth::Byte, 64),
                5 => (AccessWidth::HalfWord, 64),
                6 => (AccessWidth::Word, 64),
                _ => {
                    return Err(illegal(instruction));
                },
            };
            match self.load(bus, address, width, Access::Read) {
                Ok(value) => {
                    let extended: u64 = if bits == 64 {
                        value
                    } else {
                        sign_extend(value, bits)
                    };
                    self.set_register(rd, extended);
                    Ok(())
                },
                Err(trap) => Err(trap),
            }
        } else {
            let address: u64 = base.wrapping_add(decode_s_immediate(instruction));
            let source: u64 = self.registers[register_index(instruction, 20)];
            let width: AccessWidth = match funct3 {
                0 => AccessWidth::Byte,
                1 => AccessWidth::HalfWord,
                2 => AccessWidth::Word,
                3 => AccessWidth::DoubleWord,
                _ => {
                    return Err(illegal(instruction));
                },
            };
            match self.store(bus, address, width, source) {
                Ok(()) => {
                    self.control.reservation = None;
                    Ok(())
                },
                Err(trap) => Err(trap),
            }
        }
    }

    fn execute_atomic<B: CpuBus>(
        &mut self,
        bus: &mut B,
        instruction: u32,
        rd: usize,
        rs1: usize,
        rs2: usize,
        width_code: u32,
    ) -> (r: Result<(), Trap>)
        requires
            B::valid(old(bus).model()),
            rd < 32,
            rs1 < 32,
            rs2 < 32,
        ensures
            (r, final(self)@, final(bus).model()) == old(self)@.execute_atomic::<B>(
                old(bus).model(),
                instruction,
                rd as int,
                rs1,
                rs2,
                width_code,
            ),
            B::valid(final(bus).model()),
    {
        let width: AccessWidth = match width_code {
            2 => AccessWidth::Word,
            3 => AccessWidth::DoubleWord,
            _ => {
                return Err(illegal(instruction));
            },
        };
        let address: u64 = self.registers[rs1];
        let source: u64 = self.registers[rs2];
        let operation: u32 = instruction >> 27;
        if address % (width.bytes() as u64) != 0 {
            return Err(
                Trap {
                    exception: if operation == 2 {
                        Exception::LoadAddressMisaligned
                    } else {
                        Exception::StoreAddressMisaligned
                    },
                    value: address,
                },
            );
        }
        if operation == 2 {
            if rs2 != 0 {
                return Err(illegal(instruction));
            }
            return match self.load(bus, address, width, Access::Read) {
                Ok(value) => {
                    self.control.reservation = Some(Reservation { address, width });
                    self.set_register(rd, atomic_result(value, width));
                    Ok(())
                },
                Err(trap) => Err(trap),
            };
        }
        if operation == 3 {
            let succeeds: bool = match self.control.reservation {
                Some(reservation) => reservation.address == address && reservation.width == width,
                None => false,
            };
            self.control.reservation = None;
            if succeeds {
                return match self.store(bus, address, width, source) {
                    Ok(()) => {
                        self.set_register(rd, 0);
                        Ok(())
                    },
                    Err(trap) => Err(trap),
                };
            }
            return match self.check_store(bus, address, width) {
                Ok(()) => {
                    self.set_register(rd, 1);
                    Ok(())
                },
                Err(trap) => Err(trap),
            };
        }
        let found: u64 = match self.load_for_store(bus, address, width) {
            Ok(found) => found,
            Err(trap) => {
                return Err(trap);
            },
        };
        let value: u64 = match atomic_update(
            operation,
            truncate_atomic(found, width),
            truncate_atomic(source, width),
            width,
        ) {
            Some(value) => value,
            None => {
                return Err(illegal(instruction));
            },
        };
        self.control.reservation = None;
        match self.store(bus, address, width, value) {
            Ok(()) => {
                self.set_register(rd, atomic_result(found, width));
                Ok(())
            },
            Err(trap) => Err(trap),
        }
    }

    fn execute_cache_block<B: CpuBus>(
        &mut self,
        bus: &mut B,
        instruction: u32,
        rd: usize,
        rs1: usize,
    ) -> (r: Result<(), Trap>)
        requires
            B::valid(old(bus).model()),
            rs1 < 32,
        ensures
            (r, final(self)@, final(bus).model()) == old(self)@.execute_cache_block::<B>(
                old(bus).model(),
                instruction,
                rd as int,
                rs1 as int,
            ),
            B::valid(final(bus).model()),
    {
        let operation: u32 = instruction >> 20;
        if rd != 0 || !(operation == 0 || operation == 1 || operation == 2 || operation == 4) {
            return Err(illegal(instruction));
        }
        if self.control.privilege != Privilege::Machine {
            let required: u64 = match operation {
                0 => ENVCFG_CBIE,
                4 => ENVCFG_CBZE,
                _ => ENVCFG_CBCFE,
            };
            if self.control.menvcfg & required == 0 || (self.control.privilege == Privilege::User
                && self.control.senvcfg & required == 0) {
                return Err(illegal(instruction));
            }
        }
        let address: u64 = self.registers[rs1];
        self.cache_block(bus, address, operation == 4)
    }

    fn return_from_supervisor(&mut self, instruction: u32) -> (r: Result<u64, Trap>)
        ensures
            (r, final(self)@) == old(self)@.returned_from_supervisor(instruction),
    {
        let mstatus: u64 = self.control.mstatus;
        if self.control.privilege == Privilege::User || (self.control.privilege
            == Privilege::Supervisor && mstatus & MSTATUS_TSR != 0) {
            return Err(illegal(instruction));
        }
        let privilege: Privilege = if mstatus & MSTATUS_SPP != 0 {
            Privilege::Supervisor
        } else {
            Privilege::User
        };
        let enabled: u64 = (mstatus & !MSTATUS_SIE) | if mstatus & MSTATUS_SPIE != 0 {
            MSTATUS_SIE
        } else {
            0
        };
        self.control.mstatus = (enabled | MSTATUS_SPIE) & !(MSTATUS_SPP | MSTATUS_MPRV);
        self.set_privilege(privilege);
        Ok(self.control.sepc)
    }

    fn return_from_machine(&mut self, instruction: u32) -> (r: Result<u64, Trap>)
        ensures
            (r, final(self)@) == old(self)@.returned_from_machine(instruction),
    {
        let mstatus: u64 = self.control.mstatus;
        if self.control.privilege != Privilege::Machine {
            return Err(illegal(instruction));
        }
        let privilege: Privilege = match (mstatus & MSTATUS_MPP) >> 11 {
            0 => Privilege::User,
            1 => Privilege::Supervisor,
            3 => Privilege::Machine,
            _ => {
                return Err(illegal(instruction));
            },
        };
        let enabled: u64 = (mstatus & !MSTATUS_MIE) | if mstatus & MSTATUS_MPIE != 0 {
            MSTATUS_MIE
        } else {
            0
        };
        let popped: u64 = (enabled | MSTATUS_MPIE) & !MSTATUS_MPP;
        self.control.mstatus = if privilege == Privilege::Machine {
            popped
        } else {
            popped & !MSTATUS_MPRV
        };
        self.set_privilege(privilege);
        Ok(self.control.mepc)
    }

    fn execute_privileged(&mut self, pc: u64, instruction: u32) -> (r: Result<u64, Trap>)
        ensures
            (r, final(self)@) == old(self)@.execute_privileged(pc, instruction),
    {
        let privilege: Privilege = self.control.privilege;
        match instruction {
            0x0000_0073 => {
                return Err(
                    Trap {
                        exception: match privilege {
                            Privilege::User => Exception::UserEnvironmentCall,
                            Privilege::Supervisor => Exception::SupervisorEnvironmentCall,
                            Privilege::Machine => Exception::MachineEnvironmentCall,
                        },
                        value: 0,
                    },
                );
            },
            0x0010_0073 => {
                return Err(Trap { exception: Exception::Breakpoint, value: 0 });
            },
            0x1020_0073 => {
                return self.return_from_supervisor(instruction);
            },
            0x3020_0073 => {
                return self.return_from_machine(instruction);
            },
            0x1050_0073 => {
                if privilege != Privilege::Machine && self.control.mstatus & MSTATUS_TW != 0 {
                    return Err(illegal(instruction));
                }
                if self.control.mip & self.control.mie == 0 {
                    self.control.power_down = true;
                }
            },
            0x00d0_0073 | 0x01d0_0073 => {},
            0x1800_0073 | 0x1810_0073 => {
                if privilege == Privilege::User {
                    return Err(illegal(instruction));
                }
            },
            _ => {
                if instruction & 0xfe00_7fff != 0x1200_0073 && instruction & 0xfe00_7fff
                    != 0x1600_0073 {
                    return Err(illegal(instruction));
                }
                if privilege == Privilege::User || (privilege == Privilege::Supervisor
                    && self.control.mstatus & MSTATUS_TVM != 0) {
                    return Err(illegal(instruction));
                }
                self.flush_tlb();
            },
        }
        Ok(pc.wrapping_add(4))
    }

    fn execute_csr(&mut self, pc: u64, instruction: u32, rd: usize, rs1: usize, funct3: u32) -> (r:
        Result<(u64, bool), Trap>)
        requires
            rd < 32,
            rs1 < 32,
        ensures
            (r, final(self)@) == old(self)@.execute_csr(pc, instruction, rd as int, rs1, funct3),
    {
        let csr: u16 = (instruction >> 20) as u16;
        let source: u64 = if funct3 >= 4 {
            rs1 as u64
        } else {
            self.registers[rs1]
        };
        let operation: u32 = funct3 % 4;
        if operation == 0 {
            return Err(illegal(instruction));
        }
        let will_write: bool = operation == 1 || rs1 != 0;
        let found: u64 = match self.csr_read(csr, will_write) {
            Ok(found) => found,
            Err(_) => {
                return Err(illegal(instruction));
            },
        };
        if will_write {
            let value: u64 = match operation {
                1 => source,
                2 => found | source,
                _ => found & !source,
            };
            match self.csr_write(csr, value) {
                Ok(()) => {},
                Err(_) => {
                    return Err(illegal(instruction));
                },
            }
        }
        self.set_register(rd, found);
        Ok((pc.wrapping_add(4), !(will_write && csr == CSR_MINSTRET)))
    }

    pub fn execute_system(
        &mut self,
        pc: u64,
        instruction: u32,
        rd: usize,
        rs1: usize,
        funct3: u32,
    ) -> (r: Result<(u64, bool), Trap>)
        requires
            rd < 32,
            rs1 < 32,
        ensures
            (r, final(self)@) == old(self)@.execute_system(pc, instruction, rd as int, rs1, funct3),
    {
        if funct3 == 4 {
            if instruction & 0xb3c0_707f == 0x81c0_4073 || instruction & 0xb200_707f
                == 0x8200_4073 {
                self.set_register(rd, 0);
                return Ok((pc.wrapping_add(4), true));
            }
            return Err(illegal(instruction));
        }
        if funct3 == 0 {
            return match self.execute_privileged(pc, instruction) {
                Ok(next) => Ok((next, true)),
                Err(trap) => Err(trap),
            };
        }
        self.execute_csr(pc, instruction, rd, rs1, funct3)
    }

    #[verifier::rlimit(40)]
    pub fn execute<B: CpuBus>(
        &mut self,
        bus: &mut B,
        pc: u64,
        instruction: u32,
        length: u64,
    ) -> (r: Result<InstructionOutcome, Trap>)
        requires
            B::valid(old(bus).model()),
        ensures
            (r, final(self)@, final(bus).model()) == old(self)@.execute::<B>(
                old(bus).model(),
                pc,
                instruction,
                length,
            ),
            B::valid(final(bus).model()),
    {
        if length == 2 {
            return self.execute_compressed(bus, pc, instruction as u16);
        }
        let opcode: u32 = instruction % 128;
        let rd: usize = register_index(instruction, 7);
        let funct3: u32 = (instruction >> 12) % 8;
        let rs1: usize = register_index(instruction, 15);
        let rs2: usize = register_index(instruction, 20);
        let left: u64 = self.registers[rs1];
        let right: u64 = self.registers[rs2];
        let next_pc: u64 = pc.wrapping_add(4);
        match opcode {
            0x37 => {
                self.set_register(rd, decode_u_immediate(instruction));
                Ok(InstructionOutcome::sequential(next_pc))
            },
            0x17 => {
                self.set_register(rd, pc.wrapping_add(decode_u_immediate(instruction)));
                Ok(InstructionOutcome::sequential(next_pc))
            },
            0x6f => match checked_target(pc.wrapping_add(decode_j_immediate(instruction))) {
                Ok(target) => {
                    self.set_register(rd, next_pc);
                    Ok(InstructionOutcome::exit(target, true))
                },
                Err(trap) => Err(trap),
            },
            0x67 => {
                if funct3 != 0 {
                    return Err(illegal(instruction));
                }
                match checked_target(left.wrapping_add(decode_i_immediate(instruction)) & !1) {
                    Ok(target) => {
                        self.set_register(rd, next_pc);
                        Ok(InstructionOutcome::exit(target, true))
                    },
                    Err(trap) => Err(trap),
                }
            },
            0x63 => match takes_branch(funct3, left, right) {
                None => Err(illegal(instruction)),
                Some(taken) => {
                    if !taken {
                        return Ok(InstructionOutcome::sequential(next_pc));
                    }
                    match checked_target(pc.wrapping_add(decode_b_immediate(instruction))) {
                        Ok(target) => Ok(InstructionOutcome::exit(target, true)),
                        Err(trap) => Err(trap),
                    }
                },
            },
            0x03 | 0x23 => proceed(self.execute_memory(bus, instruction, opcode), next_pc),
            0x07 | 0x27 => proceed(self.execute_fp_memory(bus, instruction, opcode), next_pc),
            0x43 | 0x47 | 0x4b | 0x4f | 0x53 => proceed(
                self.execute_floating(instruction, opcode),
                next_pc,
            ),
            0x2f => proceed(
                self.execute_atomic(bus, instruction, rd, rs1, rs2, funct3),
                next_pc,
            ),
            0x13 | 0x1b | 0x33 | 0x3b => match arithmetic(
                instruction,
                opcode,
                rs2,
                funct3,
                left,
                right,
            ) {
                Ok(value) => {
                    self.set_register(rd, value);
                    Ok(InstructionOutcome::sequential(next_pc))
                },
                Err(trap) => Err(trap),
            },
            0x0f => {
                if (funct3 == 0 && instruction & 0xf00f_ff80 == 0) || instruction == 0x0000_100f {
                    Ok(InstructionOutcome::sequential(next_pc))
                } else if funct3 == 2 {
                    proceed(self.execute_cache_block(bus, instruction, rd, rs1), next_pc)
                } else {
                    Err(illegal(instruction))
                }
            },
            0x73 => match self.execute_system(pc, instruction, rd, rs1, funct3) {
                Ok((next, retired)) => Ok(InstructionOutcome::exit(next, retired)),
                Err(trap) => Err(trap),
            },
            _ => Err(illegal(instruction)),
        }
    }
}

} // verus!
