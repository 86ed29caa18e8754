//! What holds of every CPU, whatever it runs.

use vstd::prelude::*;
use crate::cpu::alu;
use crate::cpu::mmu::Access;
use crate::cpu::{
    CpuBus, CpuModel, MSTATUS_MIE, MSTATUS_MPIE, MSTATUS_MPP, MSTATUS_MPRV, MSTATUS_SIE,
    MSTATUS_SPIE, MSTATUS_SPP, MSTATUS_TSR, PMP_CFG_L,
};
use crate::memory::AccessWidth;

verus! {

/// Whether two states differ in their cached translations only.
pub open spec fn same_but_tlb(a: CpuModel, b: CpuModel) -> bool {
    &&& a.control == b.control
    &&& a.registers == b.registers
    &&& a.fp_registers == b.fp_registers
    &&& a.pmpcfg == b.pmpcfg
    &&& a.pmpaddr == b.pmpaddr
    &&& a.tlb_read.len() == b.tlb_read.len()
    &&& a.tlb_write.len() == b.tlb_write.len()
    &&& a.tlb_execute.len() == b.tlb_execute.len()
}

proof fn lemma_load_pieces<B: CpuBus>(
    c: CpuModel,
    m: B::Model,
    address: u64,
    len: nat,
    access: Access,
    index: nat,
    before: u64,
)
    requires
        c.well_formed(),
    ensures
        same_but_tlb(c, c.load_pieces::<B>(m, address, len, access, index, before).1),
    decreases len - index,
{
    if index < len {
        let (r, d, n) = c.load_aligned::<B>(
            m,
            address.wrapping_add(index as u64),
            AccessWidth::Byte,
            access,
        );
        if r is Ok {
            lemma_load_pieces::<B>(
                d,
                n,
                address,
                len,
                access,
                index + 1,
                before | (r->Ok_0 << ((index * 8) as u64)),
            );
        }
    }
}

proof fn lemma_store_pieces<B: CpuBus>(
    c: CpuModel,
    m: B::Model,
    address: u64,
    len: nat,
    value: u64,
    index: nat,
)
    requires
        c.well_formed(),
    ensures
        same_but_tlb(c, c.store_pieces::<B>(m, address, len, value, index).1),
    decreases len - index,
{
    if index < len {
        let (r, d, n) = c.store_aligned::<B>(
            m,
            address.wrapping_add(index as u64),
            AccessWidth::Byte,
            value >> ((index * 8) as u64),
        );
        if r is Ok {
            lemma_store_pieces::<B>(d, n, address, len, value, index + 1);
        }
    }
}

proof fn lemma_zero_words<B: CpuBus>(c: CpuModel, m: B::Model, block: u64, index: nat)
    requires
        c.well_formed(),
    ensures
        same_but_tlb(c, c.zero_words::<B>(m, block, index).1),
    decreases 8 - index,
{
    if index < 8 {
        let (r, d, n) = c.store_aligned::<B>(
            m,
            block.wrapping_add((index * 8) as u64),
            AccessWidth::DoubleWord,
            0,
        );
        if r is Ok {
            lemma_zero_words::<B>(d, n, block, index + 1);
        }
    }
}

/// A load or store changes nothing in the CPU but cached translations.
pub proof fn law_memory_access_keeps_registers<B: CpuBus>(c: CpuModel)
    requires
        c.well_formed(),
    ensures
        forall|m: B::Model, address: u64, width: AccessWidth, access: Access|
            same_but_tlb(c, (#[trigger] c.load::<B>(m, address, width, access)).1),
        forall|m: B::Model, address: u64, width: AccessWidth, value: u64|
            same_but_tlb(c, (#[trigger] c.store::<B>(m, address, width, value)).1),
        forall|m: B::Model, address: u64, zero: bool|
            same_but_tlb(c, (#[trigger] c.cache_block::<B>(m, address, zero)).1),
{
    assert forall|m: B::Model, address: u64, width: AccessWidth, access: Access|
        same_but_tlb(c, (#[trigger] c.load::<B>(m, address, width, access)).1) by {
        lemma_load_pieces::<B>(c, m, address, width.size(), access, 0, 0);
    }
    assert forall|m: B::Model, address: u64, width: AccessWidth, value: u64|
        same_but_tlb(c, (#[trigger] c.store::<B>(m, address, width, value)).1) by {
        lemma_store_pieces::<B>(c, m, address, width.size(), value, 0);
    }
    assert forall|m: B::Model, address: u64, zero: bool|
        same_but_tlb(c, (#[trigger] c.cache_block::<B>(m, address, zero)).1) by {
        lemma_zero_words::<B>(c, m, (address - address % 64) as u64, 0);
    }
}

#[verifier::rlimit(60)]
#[verifier::spinoff_prover]
proof fn lemma_compressed_well_formed<B: CpuBus>(
    c: CpuModel,
    m: B::Model,
    pc: u64,
    instruction: u16,
)
    requires
        c.well_formed(),
    ensures
        c.execute_compressed::<B>(m, pc, instruction).1.well_formed(),
{
    crate::cpu::compressed::lemma_register_fields(instruction);
    law_memory_access_keeps_registers::<B>(c);
}

proof fn lemma_csr_well_formed(c: CpuModel, csr: u16, value: u64)
    requires
        c.well_formed(),
    ensures
        c.csr_written(csr, value).well_formed(),
        c.csr_written(csr, value).registers == c.registers,
{
}

proof fn lemma_atomic_well_formed<B: CpuBus>(
    c: CpuModel,
    m: B::Model,
    instruction: u32,
    rd: int,
    rs1: usize,
    rs2: usize,
    width_code: u32,
)
    requires
        c.well_formed(),
        0 <= rd < 32,
    ensures
        c.execute_atomic::<B>(m, instruction, rd, rs1, rs2, width_code).1.well_formed(),
{
    law_memory_access_keeps_registers::<B>(c);
    law_memory_access_keeps_registers::<B>(c.reserving(None));
    let width = if width_code == 2 {
        AccessWidth::Word
    } else {
        AccessWidth::DoubleWord
    };
    let after = c.load::<B>(m, c.registers[rs1 as int], width, Access::Write).1;
    law_memory_access_keeps_registers::<B>(after.reserving(None));
}

#[verifier::rlimit(100)]
#[verifier::spinoff_prover]
proof fn lemma_floating_well_formed(c: CpuModel, instruction: u32, opcode: u32)
    requires
        c.well_formed(),
    ensures
        c.execute_floating(instruction, opcode).1.well_formed(),
{
}

#[verifier::rlimit(100)]
#[verifier::spinoff_prover]
proof fn lemma_execute_well_formed<B: CpuBus>(
    c: CpuModel,
    m: B::Model,
    pc: u64,
    instruction: u32,
    length: u64,
)
    requires
        c.well_formed(),
    ensures
        c.execute::<B>(m, pc, instruction, length).1.well_formed(),
{
    law_memory_access_keeps_registers::<B>(c);
    let opcode = instruction % 128;
    let rd = alu::register_field(instruction, 7) as int;
    let rs1 = alu::register_field(instruction, 15);
    let rs2 = alu::register_field(instruction, 20);
    let funct3 = (instruction >> 12) % 8;
    if length == 2 {
        lemma_compressed_well_formed::<B>(c, m, pc, instruction as u16);
    } else if opcode == 0x2f {
        lemma_atomic_well_formed::<B>(c, m, instruction, rd, rs1, rs2, funct3);
    } else if opcode == 0x43 || opcode == 0x47 || opcode == 0x4b || opcode == 0x4f || opcode
        == 0x53 {
        lemma_floating_well_formed(c, instruction, opcode);
    } else if opcode == 0x73 {
        assert forall|csr: u16, value: u64| (#[trigger] c.csr_written(csr, value)).well_formed()
            && c.csr_written(csr, value).registers == c.registers by {
            lemma_csr_well_formed(c, csr, value);
        }
        assert(c.execute_privileged(pc, instruction).1.well_formed());
        assert(c.execute_csr(pc, instruction, rd, rs1, funct3).1.well_formed());
    }
}

/// Whatever a CPU executes, its register zero stays zero.
pub proof fn law_step_keeps_well_formed<B: CpuBus>(c: CpuModel, m: B::Model)
    requires
        c.well_formed(),
    ensures
        c.step::<B>(m).0.well_formed(),
{
    let start = match c.control.pending_interrupt() {
        Some(interrupt) => c.trapped(interrupt, true, 0),
        None => c,
    };
    assert(start.well_formed());
    let pc = start.control.pc;
    law_memory_access_keeps_registers::<B>(start);
    let (chunk, d, n) = start.execute_chunk::<B>(m, pc);
    assert(same_but_tlb(start, d));
    law_memory_access_keeps_registers::<B>(d);
    let (low, e, _) = d.load::<B>(n, pc, AccessWidth::HalfWord, Access::Execute);
    law_memory_access_keeps_registers::<B>(e);
    let (fetched, cpu, o) = start.fetch_next::<B>(m, pc);
    assert(same_but_tlb(start, cpu));
    if fetched is Ok {
        lemma_execute_well_formed::<B>(cpu, o, pc, fetched->Ok_0.0, fetched->Ok_0.1);
    }
}

/// The same holds of any number of cycles.
pub proof fn law_run_keeps_well_formed<B: CpuBus>(c: CpuModel, m: B::Model, fuel: nat, cycles: nat)
    requires
        c.well_formed(),
    ensures
        c.run_from::<B>(m, fuel, cycles).1.well_formed(),
        cycles <= c.run_from::<B>(m, fuel, cycles).0 <= cycles + fuel,
    decreases fuel,
{
    if fuel > 0 && !c.control.power_down {
        law_step_keeps_well_formed::<B>(c, m);
        let (d, n) = c.step::<B>(m);
        let (changed, o) = B::notices(n);
        if !changed {
            law_run_keeps_well_formed::<B>(d, o, (fuel - 1) as nat, cycles + 1);
        }
    }
}

/// A trap that machine mode handles is undone by the return from it: the CPU
/// is back at the interrupted instruction in the privilege that it had.
pub proof fn law_machine_trap_returns(c: CpuModel, cause: u32, interrupt: bool, value: u64, mret: u32)
    requires
        cause < 32,
        c.control.privilege is Machine || (interrupt && c.control.mideleg & (1u32 << cause) == 0)
            || (!interrupt && c.control.medeleg & (1u32 << cause) == 0),
    ensures
        ({
            let trapped = c.trapped(cause, interrupt, value);
            let (next, after) = trapped.returned_from_machine(mret);
            &&& trapped.control.privilege is Machine
            &&& next == Ok::<u64, crate::cpu::Trap>(c.control.pc)
            &&& after.control.privilege == c.control.privilege
            &&& c.control.privilege is Machine ==> after.control.mstatus & MSTATUS_MIE
                == c.control.mstatus & MSTATUS_MIE
        }),
{
    let s = c.control.mstatus;
    let p = c.control.privilege.encoding();
    let old_ie = (s >> p) & 1;
    let mpp = (((s & !MSTATUS_MPIE) | (old_ie << 7)) & !MSTATUS_MPP) | (p << 11);
    let t = mpp & !MSTATUS_MIE;
    assert((t & 0x1800) >> 11 == p && (t & 0x80 != 0) == (old_ie != 0)) by (bit_vector)
        requires
            p == 0 || p == 1 || p == 3,
            old_ie == (s >> p) & 1,
            t == ((((s & !0x80) | (old_ie << 7)) & !0x1800) | (p << 11)) & !0x8,
    ;
    if c.control.privilege is Machine {
        let enabled = (t & !MSTATUS_MIE) | (if t & MSTATUS_MPIE != 0 {
            MSTATUS_MIE
        } else {
            0
        });
        let popped = (enabled | MSTATUS_MPIE) & !MSTATUS_MPP;
        assert(popped & 0x8 == s & 0x8) by (bit_vector)
            requires
                old_ie == (s >> 3) & 1,
                (t & 0x80 != 0) == (old_ie != 0),
                popped == (((t & !0x8) | (if t & 0x80 != 0 {
                    0x8
                } else {
                    0
                })) | 0x80) & !0x1800,
        ;
    }
}

/// A trap that supervisor mode handles is undone by the return from it, unless
/// machine mode traps that return.
pub proof fn law_supervisor_trap_returns(
    c: CpuModel,
    cause: u32,
    interrupt: bool,
    value: u64,
    sret: u32,
)
    requires
        cause < 32,
        !(c.control.privilege is Machine),
        interrupt ==> c.control.mideleg & (1u32 << cause) != 0,
        !interrupt ==> c.control.medeleg & (1u32 << cause) != 0,
        c.control.mstatus & MSTATUS_TSR == 0,
    ensures
        ({
            let trapped = c.trapped(cause, interrupt, value);
            let (next, after) = trapped.returned_from_supervisor(sret);
            &&& trapped.control.privilege is Supervisor
            &&& next == Ok::<u64, crate::cpu::Trap>(c.control.pc)
            &&& after.control.privilege == c.control.privilege
            &&& c.control.privilege is Supervisor ==> after.control.mstatus & MSTATUS_SIE
                == c.control.mstatus & MSTATUS_SIE
        }),
{
    let s = c.control.mstatus;
    let p = c.control.privilege.encoding();
    let old_ie = (s >> p) & 1;
    let spp = if c.control.privilege is Supervisor {
        MSTATUS_SPP
    } else {
        0
    };
    let t = ((((s & !MSTATUS_SPIE) | (old_ie << 5)) & !MSTATUS_SPP) | spp) & !MSTATUS_SIE;
    assert((t & 0x100 != 0) == (spp != 0) && t & 0x40_0000 == 0 && (t & 0x20 != 0) == (old_ie
        != 0)) by (bit_vector)
        requires
            s & 0x40_0000 == 0,
            spp == 0 || spp == 0x100,
            old_ie == (s >> p) & 1,
            p == 0 || p == 1,
            t == ((((s & !0x20) | (old_ie << 5)) & !0x100) | spp) & !0x2,
    ;
    if c.control.privilege is Supervisor {
        let enabled = (t & !MSTATUS_SIE) | (if t & MSTATUS_SPIE != 0 {
            MSTATUS_SIE
        } else {
            0
        });
        let popped = (enabled | MSTATUS_SPIE) & !(MSTATUS_SPP | MSTATUS_MPRV);
        assert(popped & 0x2 == s & 0x2) by (bit_vector)
            requires
                old_ie == (s >> 1) & 1,
                (t & 0x20 != 0) == (old_ie != 0),
                popped == (((t & !0x2) | (if t & 0x20 != 0 {
                    0x2
                } else {
                    0
                })) | 0x20) & !(0x100u64 | 0x2_0000),
        ;
    }
}

/// A locked PMP entry keeps its configuration and its address, whatever is
/// written to any control register.
pub proof fn law_locked_pmp_entry_is_fixed(c: CpuModel, entry: int, csr: u16, value: u64)
    requires
        c.well_formed(),
        0 <= entry < 16,
        c.pmpcfg[entry] & PMP_CFG_L != 0,
    ensures
        c.csr_written(csr, value).pmpcfg[entry] == c.pmpcfg[entry],
        c.csr_written(csr, value).pmpaddr[entry] == c.pmpaddr[entry],
{
}

/// A store gives up the reservation that a conditional store would need.
pub proof fn law_store_breaks_reservation<B: CpuBus>(c: CpuModel, m: B::Model, instruction: u32)
    requires
        c.well_formed(),
        c.execute_memory::<B>(m, instruction, 0x23).0 is Ok,
    ensures
        c.execute_memory::<B>(m, instruction, 0x23).1.control.reservation is None,
{
}

} // verus!
