//! What control registers, traps and interrupts do, said of bits and numbers.

use vstd::prelude::*;
use crate::cpu::isa::{funct3, rd, rs1, wrap};
use crate::cpu::isa;
use crate::cpu::paging::bit_of;
use crate::cpu::{
    Control,
    CpuBus,
    CpuModel,
    CsrError,
    Exception,
    InstructionOutcome,
    Privilege,
    Trap,
};

verus! {

/// `CSRRW`, `CSRRS`, `CSRRC` and their forms with a number: the register that the
/// upper twelve bits name is read into a register, and is given the source, gains
/// the bits of the source, or loses them. Setting and clearing with register zero,
/// or with the number zero, only read.
pub proof fn law_control_register<B: CpuBus>(c: CpuModel, m: B::Model, pc: u64, w: u32)
    requires
        w % 128 == 0x73,
        funct3(w) != 0,
        funct3(w) != 4,
    ensures
        ({
            let done = c.execute::<B>(m, pc, w, 4);
            let csr = (w as int / 0x10_0000) as u16;
            let source = if funct3(w) > 4 {
                rs1(w) as u64
            } else {
                c.registers[rs1(w)]
            };
            let kind = funct3(w) % 4;
            let writes = kind == 1 || rs1(w) != 0;
            match c.csr_value(csr, writes) {
                Err(_) => isa::refused(done, w, c, m),
                Ok(found) => if !writes {
                    isa::gave(done, pc + 4, rd(w), found, c, m)
                } else if !c.csr_writable(csr) {
                    isa::refused(done, w, c, m)
                } else {
                    let value = if kind == 1 {
                        source
                    } else if kind == 2 {
                        found | source
                    } else {
                        found & ((0xffff_ffff_ffff_ffff - source) as u64)
                    };
                    let after = c.csr_written(csr, value);
                    &&& done.0 matches Ok(outcome)
                    &&& outcome.next_pc == wrap(pc + 4)
                    &&& outcome.retired == (csr != 0xb02)
                    &&& done.1 == (CpuModel {
                        registers: if rd(w) == 0 {
                            after.registers
                        } else {
                            after.registers.update(rd(w), found)
                        },
                        ..after
                    })
                    &&& done.2 == m
                },
            }
        }),
{
    isa::lemma_fields(w);
    isa::lemma_add(pc, 4);
    let source = if funct3(w) > 4 {
        rs1(w) as u64
    } else {
        c.registers[rs1(w)]
    };
    isa::lemma_simple(0, source);
}

/// What a control register keeps of what is written to it: the scratch, cause and
/// value registers keep all, exception addresses lose their lowest bit, trap
/// addresses their two lowest.
pub open spec fn kept(csr: u16, value: u64) -> int {
    if csr == 0x141 || csr == 0x341 {
        value - value as int % 2
    } else if csr == 0x105 || csr == 0x305 {
        value - value as int % 4
    } else {
        value as int
    }
}

/// The registers of traps: `sscratch`, `sepc`, `scause`, `stval`, `stvec`, and the
/// same of the machine.
pub open spec fn of_traps(csr: u16) -> bool {
    ||| 0x140 <= csr <= 0x143
    ||| 0x340 <= csr <= 0x343
    ||| csr == 0x105
    ||| csr == 0x305
}

/// A register of traps gives back what was written to it, and a write to one leaves
/// the others, the privilege, the status and the general registers as they are.
pub proof fn law_trap_registers(c: CpuModel, a: u16, b: u16, value: u64, write: bool)
    requires
        c.control.privilege == Privilege::Machine,
        of_traps(a),
        of_traps(b),
    ensures
        c.csr_writable(a),
        c.csr_written(a, value).csr_value(a, write) == Ok::<u64, CsrError>(kept(a, value) as u64),
        a != b ==> c.csr_written(a, value).csr_value(b, write) == c.csr_value(b, write),
        c.csr_written(a, value).registers == c.registers,
        c.csr_written(a, value).control.mstatus == c.control.mstatus,
        c.csr_written(a, value).control.privilege == c.control.privilege,
{
    lemma_masks(value, a, b, 0, 0, 0, false);
}

/// The masks of control registers and traps.
proof fn lemma_masks(
    value: u64,
    a: u16,
    b: u16,
    status: u64,
    privilege: u64,
    cause: u32,
    interrupt: bool,
)
    requires
        privilege == 0 || privilege == 1 || privilege == 3,
        cause < 32,
    ensures
        value & !1 == value - value % 2,
        value & !3 == value - value % 4,
        (a & 0xc00 == 0xc00) == (a / 0x400 % 4 == 3),
        (b & 0xc00 == 0xc00) == (b / 0x400 % 4 == 3),
        (a >> 8) & 3 == a / 0x100 % 4,
        (b >> 8) & 3 == b / 0x100 % 4,
        ({
            let enabled = (status >> privilege) & 1;
            let m = ((((status & !0x80) | (enabled << 7)) & !0x1800) | (privilege << 11)) & !0x8;
            &&& bit_of(m, 0x80) == bit_of(
                status,
                if privilege == 3 {
                    8
                } else if privilege == 1 {
                    2
                } else {
                    1
                },
            )
            &&& (m / 0x800) % 4 == privilege
            &&& !bit_of(m, 8)
            &&& m / 0x2000 == status / 0x2000 && (m / 0x10) % 8 == (status / 0x10) % 8 && m % 8
                == status % 8
        }),
        ({
            let enabled = (status >> privilege) & 1;
            let mark: u64 = if privilege == 1 {
                0x100
            } else {
                0
            };
            let s = ((((status & !0x20) | (enabled << 5)) & !0x100) | mark) & !0x2;
            &&& bit_of(s, 0x20) == bit_of(
                status,
                if privilege == 3 {
                    8
                } else if privilege == 1 {
                    2
                } else {
                    1
                },
            )
            &&& bit_of(s, 0x100) == (privilege == 1)
            &&& !bit_of(s, 2)
            &&& s / 0x200 == status / 0x200 && (s / 4) % 8 == (status / 4) % 8
        }),
        (cause as u64) | (if interrupt {
            0x8000_0000_0000_0000u64
        } else {
            0
        }) == cause + if interrupt {
            0x8000_0000_0000_0000
        } else {
            0int
        },
{
    let enabled = (status >> privilege) & 1;
    let m = ((((status & !0x80) | (enabled << 7)) & !0x1800) | (privilege << 11)) & !0x8;
    let mark: u64 = if privilege == 1 {
        0x100
    } else {
        0
    };
    let s = ((((status & !0x20) | (enabled << 5)) & !0x100) | mark) & !0x2;
    let high: u64 = if interrupt {
        0x8000_0000_0000_0000
    } else {
        0
    };
    let wide = cause as u64;
    assert(value & !1 == value - value % 2 && value & !3 == value - value % 4 && (a & 0xc00 == 0xc00)
        == (a / 0x400 % 4 == 3) && (b & 0xc00 == 0xc00) == (b / 0x400 % 4 == 3) && (a >> 8u16) & 3
        == a / 0x100 % 4 && (b >> 8u16) & 3 == b / 0x100 % 4 && (m / 0x80 % 2 == 1) == (enabled
        == 1) && (m / 0x800) % 4 == privilege && m / 8 % 2 == 0 && m / 0x2000 == status / 0x2000 && (
    m / 0x10) % 8 == (status / 0x10) % 8 && m % 8 == status % 8 && (s / 0x20 % 2 == 1) == (enabled
        == 1) && (s / 0x100 % 2 == 1) == (privilege == 1) && s / 2 % 2 == 0 && s / 0x200 == status
        / 0x200 && (s / 4) % 8 == (status / 4) % 8 && (privilege == 3 ==> (enabled == 1) == (status
        / 8 % 2 == 1)) && (privilege == 1 ==> (enabled == 1) == (status / 2 % 2 == 1)) && (privilege
        == 0 ==> (enabled == 1) == (status % 2 == 1)) && wide | high == wide + high) by (bit_vector)
        requires
            privilege == 0 || privilege == 1 || privilege == 3,
            enabled == (status >> privilege) & 1,
            m == ((((status & !0x80) | (enabled << 7)) & !0x1800) | (privilege << 11)) & !0x8,
            mark == (if privilege == 1 {
                0x100u64
            } else {
                0
            }),
            s == ((((status & !0x20) | (enabled << 5)) & !0x100) | mark) & !0x2,
            wide < 32,
            high == 0 || high == 0x8000_0000_0000_0000,
    ;
}

/// The number of a privilege.
pub open spec fn level(privilege: Privilege) -> int {
    match privilege {
        Privilege::User => 0,
        Privilege::Supervisor => 1,
        Privilege::Machine => 3,
    }
}

/// Whether interrupts are on for a privilege.
pub open spec fn interrupts_on(status: u64, privilege: Privilege) -> bool {
    bit_of(
        status,
        match privilege {
            Privilege::User => 1,
            Privilege::Supervisor => 2,
            Privilege::Machine => 8,
        },
    )
}

/// A trap that is not handed down goes to the machine: the cause, with the highest
/// bit set for an interrupt, the place and the value are kept in `mcause`, `mepc`
/// and `mtval`; `MPP` and `MPIE` keep the privilege and whether interrupts were on;
/// interrupts are off, and the CPU goes on at `mtvec`. A trap that is handed down
/// does the same for the supervisor. General registers stay as they are.
pub proof fn law_trap(c: CpuModel, cause: u32, interrupt: bool, value: u64)
    requires
        cause < 32,
    ensures
        ({
            let after = c.trapped(cause, interrupt, value);
            let delegated = c.control.privilege != Privilege::Machine && (if interrupt {
                c.control.mideleg & (1u32 << cause) != 0
            } else {
                c.control.medeleg & (1u32 << cause) != 0
            });
            let before = c.control;
            let now = after.control;
            let number = cause + if interrupt {
                0x8000_0000_0000_0000
            } else {
                0int
            };
            &&& after.registers == c.registers
            &&& after.fp_registers == c.fp_registers
            &&& !delegated ==> {
                &&& now.privilege == Privilege::Machine
                &&& now.pc == before.mtvec
                &&& now.mcause == number && now.mepc == before.pc && now.mtval == value
                &&& now.scause == before.scause && now.sepc == before.sepc && now.stval
                    == before.stval
                &&& (now.mstatus as int / 0x800) % 4 == level(before.privilege)
                &&& bit_of(now.mstatus, 0x80) == interrupts_on(before.mstatus, before.privilege)
                &&& !bit_of(now.mstatus, 8)
                &&& now.mstatus as int / 0x2000 == before.mstatus as int / 0x2000
            }
            &&& delegated ==> {
                &&& now.privilege == Privilege::Supervisor
                &&& now.pc == before.stvec
                &&& now.scause == number && now.sepc == before.pc && now.stval == value
                &&& now.mcause == before.mcause && now.mepc == before.mepc && now.mtval
                    == before.mtval
                &&& bit_of(now.mstatus, 0x100) == (before.privilege == Privilege::Supervisor)
                &&& bit_of(now.mstatus, 0x20) == interrupts_on(before.mstatus, before.privilege)
                &&& !bit_of(now.mstatus, 2)
                &&& now.mstatus as int / 0x200 == before.mstatus as int / 0x200
            }
        }),
{
    lemma_masks(
        0,
        0,
        0,
        c.control.mstatus,
        c.control.privilege.encoding(),
        cause,
        interrupt,
    );
}

/// Whether an interrupt waits and is not held back: it is pending and enabled, and
/// the machine takes only those that are not handed down, and only with its
/// interrupts on; a supervisor those of the machine, and those handed down with its
/// interrupts on; a user all.
pub open spec fn may_interrupt(c: Control, line: u32) -> bool {
    &&& c.mip & line != 0
    &&& c.mie & line != 0
    &&& match c.privilege {
        Privilege::Machine => bit_of(c.mstatus, 8) && c.mideleg & line == 0,
        Privilege::Supervisor => c.mideleg & line == 0 || bit_of(c.mstatus, 2),
        Privilege::User => true,
    }
}

/// Of the interrupts that wait, the CPU takes the external one of the machine (11)
/// first, and so on with its software (3) and timer (7) interrupts, then the
/// external (9), software (1) and timer (5) interrupts of the supervisor.
pub proof fn law_interrupt_order(c: Control)
    ensures
        c.pending_interrupt() == if may_interrupt(c, 0x800) {
            Some(11u32)
        } else if may_interrupt(c, 0x8) {
            Some(3u32)
        } else if may_interrupt(c, 0x80) {
            Some(7u32)
        } else if may_interrupt(c, 0x200) {
            Some(9u32)
        } else if may_interrupt(c, 0x2) {
            Some(1u32)
        } else if may_interrupt(c, 0x20) {
            Some(5u32)
        } else {
            None
        },
{
    lemma_line(c, 0x800);
    lemma_line(c, 0x8);
    lemma_line(c, 0x80);
    lemma_line(c, 0x200);
    lemma_line(c, 0x2);
    lemma_line(c, 0x20);
}

proof fn lemma_line(c: Control, line: u32)
    requires
        line == 0x800 || line == 8 || line == 0x80 || line == 0x200 || line == 2 || line == 0x20,
    ensures
        ({
            let on = |enabled: u32| ((c.mip & c.mie) & enabled) & line != 0;
            let both = c.mip & line != 0 && c.mie & line != 0;
            &&& on(!c.mideleg) == (both && c.mideleg & line == 0)
            &&& on(!c.mideleg | c.mideleg) == both
            &&& on(u32::MAX) == both
            &&& !on(0)
        }),
        (c.mstatus & 8 != 0) == bit_of(c.mstatus, 8),
        (c.mstatus & 2 != 0) == bit_of(c.mstatus, 2),
{
    let a = c.mip;
    let b = c.mie;
    let d = c.mideleg;
    let s = c.mstatus;
    assert((((a & b) & !d) & line != 0) == (a & line != 0 && b & line != 0 && d & line == 0) && (((a
        & b) & (!d | d)) & line != 0) == (a & line != 0 && b & line != 0) && (((a & b) & u32::MAX)
        & line != 0) == (a & line != 0 && b & line != 0) && ((a & b) & 0) & line == 0 && (s & 8 != 0)
        == (s / 8 % 2 == 1) && (s & 2 != 0) == (s / 2 % 2 == 1)) by (bit_vector)
        requires
            line == 0x800 || line == 8 || line == 0x80 || line == 0x200 || line == 2 || line == 0x20,
    ;
}

/// `ECALL` traps with the number of the caller's privilege (8, 9 or 11), `EBREAK`
/// with 3; both leave the CPU as it is.
pub proof fn law_environment_call<B: CpuBus>(c: CpuModel, m: B::Model, pc: u64)
    ensures
        ({
            let done = c.execute::<B>(m, pc, 0x73, 4);
            &&& done.0 matches Err(trap)
            &&& trap.exception.number() == 8 + level(c.control.privilege)
            &&& trap.value == 0
            &&& done.1 == c
            &&& done.2 == m
        }),
        c.execute::<B>(m, pc, 0x10_0073, 4) == (
            Err::<InstructionOutcome, _>(Trap { exception: Exception::Breakpoint, value: 0 }),
            c,
            m,
        ),
        Exception::Breakpoint.number() == 3,
        Exception::IllegalInstruction.number() == 2,
        Exception::InstructionAddressMisaligned.number() == 0,
        Exception::LoadAddressMisaligned.number() == 4,
        Exception::StoreAddressMisaligned.number() == 6,
{
    isa::lemma_fields(0x73);
    isa::lemma_fields(0x10_0073);
    reveal(isa::part);
}

/// A step without an interrupt does the instruction at the program counter: it goes
/// to where the instruction leads, a cycle is counted, and an instruction where it
/// retires. An instruction that traps is not counted, and the trap is taken at it.
#[verifier::rlimit(80)]
#[verifier::spinoff_prover]
pub proof fn law_step<B: CpuBus>(c: CpuModel, m: B::Model, w: u32, length: u64)
    requires
        c.control.pending_interrupt() is None,
        c.fetch_next::<B>(m, c.control.pc).0 == Ok::<(u32, u64), Trap>((w, length)),
    ensures
        ({
            let pc = c.control.pc;
            let (_, cpu, n) = c.fetch_next::<B>(m, pc);
            let (r, after, o) = cpu.execute::<B>(n, pc, w, length);
            let (next, last) = c.step::<B>(m);
            let before = after.control;
            &&& last == o
            &&& next.registers == after.registers
            &&& next.fp_registers == after.fp_registers
            &&& r matches Ok(outcome) ==> {
                &&& next.control.pc == outcome.next_pc
                &&& next.control.cycle == wrap(before.cycle + 1)
                &&& next.control.instret == wrap(
                    before.instret + if outcome.retired {
                        1int
                    } else {
                        0
                    },
                )
                &&& next.control.privilege == before.privilege
                &&& next.control.mstatus == before.mstatus
            }
            &&& r matches Err(trap) ==> {
                &&& next.control.cycle == wrap(before.cycle + 1)
                &&& next.control.instret == before.instret
                &&& next.control.privilege == Privilege::Machine ==> next.control.mepc == pc
                    && next.control.mcause == trap.exception.number() && next.control.mtval
                    == trap.value && next.control.pc == before.mtvec
                &&& next.control.privilege != Privilege::Machine ==> next.control.sepc == pc
                    && next.control.scause == trap.exception.number() && next.control.stval
                    == trap.value && next.control.pc == before.stvec
            }
        }),
{
    let pc = c.control.pc;
    let (_, cpu, n) = c.fetch_next::<B>(m, pc);
    let (r, after, o) = cpu.execute::<B>(n, pc, w, length);
    lemma_ended(after, pc, r);
}

/// What a step leaves of what its instruction left.
proof fn lemma_ended(after: CpuModel, pc: u64, r: Result<InstructionOutcome, Trap>)
    ensures
        ({
            let before = after.control;
            &&& r matches Ok(outcome) ==> {
                let next = after.committed(
                    outcome.next_pc,
                    1,
                    if outcome.retired {
                        1
                    } else {
                        0
                    },
                );
                &&& next.registers == after.registers
                &&& next.fp_registers == after.fp_registers
                &&& next.control.pc == outcome.next_pc
                &&& next.control.cycle == wrap(before.cycle + 1)
                &&& next.control.instret == wrap(
                    before.instret + if outcome.retired {
                        1int
                    } else {
                        0
                    },
                )
                &&& next.control.privilege == before.privilege
                &&& next.control.mstatus == before.mstatus
            }
            &&& r matches Err(trap) ==> {
                let next = after.committed(pc, 1, 0).trapped(
                    trap.exception.number(),
                    false,
                    trap.value,
                );
                &&& next.registers == after.registers
                &&& next.fp_registers == after.fp_registers
                &&& next.control.cycle == wrap(before.cycle + 1)
                &&& next.control.instret == before.instret
                &&& next.control.privilege == Privilege::Machine ==> next.control.mepc == pc
                    && next.control.mcause == trap.exception.number() && next.control.mtval
                    == trap.value && next.control.pc == before.mtvec
                &&& next.control.privilege != Privilege::Machine ==> next.control.sepc == pc
                    && next.control.scause == trap.exception.number() && next.control.stval
                    == trap.value && next.control.pc == before.stvec
            }
        }),
{
    if let Err(trap) = r {
        let stopped = after.committed(pc, 1, 0);
        law_trap(stopped, trap.exception.number(), false, trap.value);
    }
}

} // verus!
