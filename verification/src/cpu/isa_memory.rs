//! What loads, stores and atomic instructions do, said of the numbers in memory
//! and in the registers.

use vstd::prelude::*;
use crate::cpu::alu;
use crate::cpu::isa::{funct3, i_offset, rd, rs1, rs2, s_offset, wrap};
use crate::cpu::execute::{atomic_found, atomic_part, atomic_signed, atomic_value};
use crate::cpu::isa;
use crate::cpu::mmu::Access;
use crate::cpu::{
    Control,
    CpuBus,
    CpuModel,
    Exception,
    InstructionOutcome,
    Reservation,
    Trap,
};
use crate::memory::AccessWidth;

verus! {

/// The width that the low bits of a field name.
pub open spec fn width_of(code: int) -> AccessWidth {
    if code == 0 {
        AccessWidth::Byte
    } else if code == 1 {
        AccessWidth::HalfWord
    } else if code == 2 {
        AccessWidth::Word
    } else {
        AccessWidth::DoubleWord
    }
}

/// A number of `bits` bits, of which the highest counts down.
pub open spec fn extended(value: u64, size: int) -> int {
    let low = value as int % size;
    if 2 * low < size {
        low
    } else {
        low - size
    }
}

/// What a load leaves in its register: `LB`, `LH`, `LW` and `LD` a number that may
/// be negative, `LBU`, `LHU` and `LWU` one that may not.
pub open spec fn loaded(kind: int, value: u64) -> int {
    if kind == 0 {
        extended(value, 0x100)
    } else if kind == 1 {
        extended(value, 0x1_0000)
    } else if kind == 2 {
        extended(value, 0x1_0000_0000)
    } else {
        value as int
    }
}

pub proof fn lemma_extended(value: u64)
    ensures
        alu::sign_extended(value, 8) == wrap(extended(value, 0x100)),
        alu::sign_extended(value, 16) == wrap(extended(value, 0x1_0000)),
        alu::sign_extended(value, 32) == wrap(extended(value, 0x1_0000_0000)),
{
    let a = alu::sign_extended(value, 8);
    let b = alu::sign_extended(value, 16);
    let c = alu::sign_extended(value, 32);
    assert(a == (if value % 0x100 < 0x80 {
        (value % 0x100) as u64
    } else {
        (value % 0x100 + 0xffff_ffff_ffff_ff00) as u64
    }) && b == (if value % 0x1_0000 < 0x8000 {
        (value % 0x1_0000) as u64
    } else {
        (value % 0x1_0000 + 0xffff_ffff_ffff_0000) as u64
    }) && c == (if value % 0x1_0000_0000 < 0x8000_0000 {
        (value % 0x1_0000_0000) as u64
    } else {
        (value % 0x1_0000_0000 + 0xffff_ffff_0000_0000) as u64
    })) by (bit_vector)
        requires
            a == alu::sign_extended(value, 8),
            b == alu::sign_extended(value, 16),
            c == alu::sign_extended(value, 32),
    ;
}

/// A load reads as many bytes as its width names from the sum of a register and
/// an offset, and leaves them in a register with or without their sign. Where the
/// access fails, its trap is the instruction's.
pub proof fn law_load<B: CpuBus>(c: CpuModel, m: B::Model, pc: u64, w: u32)
    requires
        w % 128 == 0x03,
    ensures
        ({
            let done = c.execute::<B>(m, pc, w, 4);
            let address = wrap(c.registers[rs1(w)] + i_offset(w));
            if funct3(w) == 7 {
                isa::refused(done, w, c, m)
            } else {
                match c.load::<B>(m, address, width_of(funct3(w) % 4), Access::Read) {
                    (Ok(value), cpu, n) => isa::gave(
                        done,
                        pc + 4,
                        rd(w),
                        wrap(loaded(funct3(w), value)),
                        cpu,
                        n,
                    ),
                    (Err(trap), cpu, n) => done == (Err::<InstructionOutcome, Trap>(trap), cpu, n),
                }
            }
        }),
{
    isa::lemma_fields(w);
    isa::lemma_i_offset(w);
    isa::lemma_add(pc, 4);
    isa::lemma_add(c.registers[rs1(w)], i_offset(w));
    let address = wrap(c.registers[rs1(w)] + i_offset(w));
    if let (Ok(value), _, _) = c.load::<B>(m, address, width_of(funct3(w) % 4), Access::Read) {
        lemma_extended(value);
        assert(wrap(value as int) == value);
    }
}

/// A store writes a register to the sum of a register and an offset, as many bytes
/// as its width names, and ends any reservation.
pub proof fn law_store<B: CpuBus>(c: CpuModel, m: B::Model, pc: u64, w: u32)
    requires
        w % 128 == 0x23,
    ensures
        ({
            let done = c.execute::<B>(m, pc, w, 4);
            let address = wrap(c.registers[rs1(w)] + s_offset(w));
            if funct3(w) > 3 {
                isa::refused(done, w, c, m)
            } else {
                match c.store::<B>(m, address, width_of(funct3(w)), c.registers[rs2(w)]) {
                    (Ok(_), cpu, n) => isa::led_to(
                        done,
                        pc + 4,
                        CpuModel {
                            control: Control { reservation: None, ..cpu.control },
                            ..cpu
                        },
                        n,
                    ),
                    (Err(trap), cpu, n) => done == (Err::<InstructionOutcome, Trap>(trap), cpu, n),
                }
            }
        }),
{
    isa::lemma_fields(w);
    isa::lemma_s_offset(w);
    isa::lemma_add(pc, 4);
    isa::lemma_add(c.registers[rs1(w)], s_offset(w));
}

/// What an atomic operation leaves in memory, from what it found there and a
/// register, as numbers without a sign (`found`, `source`) and with one.
pub open spec fn combined(code: int, found: u64, source: u64, less: bool) -> Option<int> {
    if code == 0 {
        Some(found + source)
    } else if code == 1 {
        Some(source as int)
    } else if code == 4 {
        Some((found ^ source) as int)
    } else if code == 8 {
        Some((found | source) as int)
    } else if code == 12 {
        Some((found & source) as int)
    } else if code == 16 {
        Some(
            if less {
                found as int
            } else {
                source as int
            },
        )
    } else if code == 20 {
        Some(
            if less {
                source as int
            } else {
                found as int
            },
        )
    } else if code == 24 {
        Some(
            if found < source {
                found as int
            } else {
                source as int
            },
        )
    } else if code == 28 {
        Some(
            if found < source {
                source as int
            } else {
                found as int
            },
        )
    } else {
        None
    }
}

proof fn lemma_combined(code: u32, found: u64, source: u64, width: AccessWidth)
    requires
        width == AccessWidth::Word || width == AccessWidth::DoubleWord,
    ensures
        ({
            let size = if width == AccessWidth::Word {
                0x1_0000_0000int
            } else {
                0x1_0000_0000_0000_0000int
            };
            let a = (found as int % size) as u64;
            let b = (source as int % size) as u64;
            &&& atomic_part(found, width) == a
            &&& atomic_part(source, width) == b
            &&& atomic_found(found, width) == wrap(extended(found, size))
            &&& atomic_value(code, a, b, width) == (match combined(
                code as int,
                a,
                b,
                extended(found, size) < extended(source, size),
            ) {
                None => None,
                Some(value) => Some(wrap(value)),
            })
        }),
{
    let size = if width == AccessWidth::Word {
        0x1_0000_0000int
    } else {
        0x1_0000_0000_0000_0000int
    };
    let a = (found as int % size) as u64;
    let b = (source as int % size) as u64;
    if width == AccessWidth::Word {
        lemma_extended(a);
        isa::lemma_low(a);
        isa::lemma_low(b);
        isa::lemma_word(a as u32);
        isa::lemma_word(b as u32);
        assert(a as u32 == a && b as u32 == b);
        assert(extended(a, size) == extended(found, size));
    }
    assert(atomic_signed(a, width) == extended(found, size));
    assert(atomic_signed(b, width) == extended(source, size));
    assert(wrap(a as int) == a && wrap(b as int) == b);
    assert(a.wrapping_add(b) == wrap(a + b));
}

/// An atomic operation (`AMOADD`, `AMOSWAP`, `AMOXOR`, `AMOOR`, `AMOAND`, `AMOMIN`,
/// `AMOMAX`, `AMOMINU`, `AMOMAXU`) on a word or a doubleword gives what it found,
/// and leaves what it makes of that and a register in its place. It ends any
/// reservation.
pub proof fn law_atomic_operation<B: CpuBus>(
    c: CpuModel,
    m: B::Model,
    pc: u64,
    w: u32,
    found: u64,
    cpu: CpuModel,
    n: B::Model,
)
    requires
        w % 128 == 0x2f,
        funct3(w) == 2 || funct3(w) == 3,
        w as int / 0x800_0000 != 2,
        w as int / 0x800_0000 != 3,
        c.registers[rs1(w)] as int % (if funct3(w) == 2 {
            4
        } else {
            8
        }) == 0,
        c.load::<B>(m, c.registers[rs1(w)], width_of(funct3(w)), Access::Write) == (
            Ok::<u64, Trap>(found),
            cpu,
            n,
        ),
    ensures
        ({
            let done = c.execute::<B>(m, pc, w, 4);
            let address = c.registers[rs1(w)];
            let size = if funct3(w) == 2 {
                0x1_0000_0000
            } else {
                0x1_0000_0000_0000_0000
            };
            let old = (found as int % size) as u64;
            let source = (c.registers[rs2(w)] as int % size) as u64;
            let less = extended(found, size) < extended(c.registers[rs2(w)], size);
            let freed = CpuModel { control: Control { reservation: None, ..cpu.control }, ..cpu };
            match combined(w as int / 0x800_0000, old, source, less) {
                None => done.0 is Err && done.0->Err_0.exception == Exception::IllegalInstruction
                    && done.1 == cpu && done.2 == n,
                Some(value) => match freed.store::<B>(
                    n,
                    address,
                    width_of(funct3(w)),
                    wrap(value),
                ) {
                    (Ok(_), after, o) => isa::gave(
                        done,
                        pc + 4,
                        rd(w),
                        wrap(extended(found, size)),
                        after,
                        o,
                    ),
                    (Err(trap), after, o) => done == (
                        Err::<InstructionOutcome, Trap>(trap),
                        after,
                        o,
                    ),
                },
            }
        }),
{
    isa::lemma_fields(w);
    isa::lemma_add(pc, 4);
    let width = width_of(funct3(w));
    lemma_combined(w >> 27, found, c.registers[rs2(w)], width);
    assert(c.registers[rs1(w)] as nat % width.size() == 0);
}

/// `LR` gives what it found with its sign, and reserves the place. `SC` at a place
/// that is reserved with the same width stores and gives 0; anywhere else it
/// stores nothing and gives 1, if it could have stored. Either way the reservation
/// ends. A place that is not a multiple of the width is refused.
pub proof fn law_reserved_access<B: CpuBus>(c: CpuModel, m: B::Model, pc: u64, w: u32)
    requires
        w % 128 == 0x2f,
        funct3(w) == 2 || funct3(w) == 3,
    ensures
        ({
            let done = c.execute::<B>(m, pc, w, 4);
            let address = c.registers[rs1(w)];
            let width = width_of(funct3(w));
            let size = if funct3(w) == 2 {
                4int
            } else {
                8
            };
            let whole = if funct3(w) == 2 {
                0x1_0000_0000
            } else {
                0x1_0000_0000_0000_0000
            };
            let freed = CpuModel { control: Control { reservation: None, ..c.control }, ..c };
            let code = w as int / 0x800_0000;
            &&& address as int % size != 0 ==> done == (
                Err::<InstructionOutcome, _>(
                    Trap {
                        exception: if code == 2 {
                            Exception::LoadAddressMisaligned
                        } else {
                            Exception::StoreAddressMisaligned
                        },
                        value: address,
                    },
                ),
                c,
                m,
            )
            &&& address as int % size == 0 && code == 2 && rs2(w) == 0 ==> match c.load::<B>(
                m,
                address,
                width,
                Access::Read,
            ) {
                (Ok(value), cpu, n) => isa::gave(
                    done,
                    pc + 4,
                    rd(w),
                    wrap(extended(value, whole)),
                    CpuModel {
                        control: Control {
                            reservation: Some(Reservation { address, width }),
                            ..cpu.control
                        },
                        ..cpu
                    },
                    n,
                ),
                (Err(trap), cpu, n) => done == (Err::<InstructionOutcome, Trap>(trap), cpu, n),
            }
            &&& address as int % size == 0 && code == 3 && c.control.reservation == Some(
                Reservation { address, width },
            ) ==> match freed.store::<B>(m, address, width, c.registers[rs2(w)]) {
                (Ok(_), cpu, n) => isa::gave(done, pc + 4, rd(w), 0, cpu, n),
                (Err(trap), cpu, n) => done == (Err::<InstructionOutcome, Trap>(trap), cpu, n),
            }
            &&& address as int % size == 0 && code == 3 && c.control.reservation != Some(
                Reservation { address, width },
            ) ==> match freed.check_store::<B>(m, address, width) {
                (Ok(_), cpu, n) => isa::gave(done, pc + 4, rd(w), 1, cpu, n),
                (Err(trap), cpu, n) => done == (Err::<InstructionOutcome, Trap>(trap), cpu, n),
            }
        }),
{
    isa::lemma_fields(w);
    isa::lemma_add(pc, 4);
    let width = width_of(funct3(w));
    if let (Ok(value), _, _) = c.load::<B>(m, c.registers[rs1(w)], width, Access::Read) {
        lemma_combined(0, value, 0, width);
    }
}

} // verus!
