//! RV64 CPU state, traps, interrupts, counters, and control registers.
//!
//! The state of a CPU is described by [`CpuModel`], and every operation by a
//! function from the model before to the model after. Memory and devices stand
//! behind [`CpuBus`], whose own model each implementation chooses.

pub mod alu;
pub mod compressed;
pub mod execute;
pub mod floating;
pub mod isa;
pub mod isa_bits;
pub mod isa_compressed;
pub mod isa_float;
pub mod isa_memory;
pub mod isa_system;
pub mod laws;
pub mod mmu;
pub mod paging;
pub mod run;

use vstd::prelude::*;
use crate::bytes;
use crate::memory::{
    AccessWidth, ArenaOffset, GuestAddress, MemoryError, MemoryModel, PhysicalMemory,
};

verus! {

pub const MIP_SSIP: u32 = 0x2;
pub const MIP_MSIP: u32 = 0x8;
pub const MIP_STIP: u32 = 0x20;
pub const MIP_MTIP: u32 = 0x80;
pub const MIP_SEIP: u32 = 0x200;
pub const MIP_MEIP: u32 = 0x800;

pub const MSTATUS_SIE: u64 = 0x2;
pub const MSTATUS_MIE: u64 = 0x8;
pub const MSTATUS_SPIE: u64 = 0x20;
pub const MSTATUS_MPIE: u64 = 0x80;
pub const MSTATUS_SPP: u64 = 0x100;
pub const MSTATUS_MPP: u64 = 0x1800;
pub const MSTATUS_FS: u64 = 0x6000;
pub const MSTATUS_MPRV: u64 = 0x2_0000;
pub const MSTATUS_SUM: u64 = 0x4_0000;
pub const MSTATUS_MXR: u64 = 0x8_0000;
pub const MSTATUS_TVM: u64 = 0x10_0000;
pub const MSTATUS_TW: u64 = 0x20_0000;
pub const MSTATUS_TSR: u64 = 0x40_0000;
pub const MSTATUS_UXL: u64 = 0x3_0000_0000;
/// The fields of `mstatus` that software may write.
pub const MSTATUS_MASK: u64 = 0x7e_79aa;
/// The fields of `mstatus` that `sstatus` shows for writing.
pub const SSTATUS_MASK: u64 = 0xc_6122;

pub const MENVCFG_ADUE: u64 = 0x2000_0000_0000_0000;
pub const MENVCFG_PBMTE: u64 = 0x4000_0000_0000_0000;
pub const MENVCFG_STCE: u64 = 0x8000_0000_0000_0000;
pub const ENVCFG_CBIE: u64 = 0x30;
pub const ENVCFG_CBCFE: u64 = 0x40;
pub const ENVCFG_CBZE: u64 = 0x80;
pub const ENVCFG_CBO_MASK: u64 = 0xf0;
pub const COUNTEREN_MASK: u32 = 0x7;

pub const PMP_ENTRY_COUNT: usize = 16;
pub const PMP_CFG_R: u8 = 0x1;
pub const PMP_CFG_W: u8 = 0x2;
pub const PMP_CFG_X: u8 = 0x4;
pub const PMP_CFG_A_MASK: u8 = 0x18;
pub const PMP_CFG_A_TOR: u8 = 0x8;
pub const PMP_CFG_A_NA4: u8 = 0x10;
pub const PMP_CFG_L: u8 = 0x80;
/// The bits of a PMP configuration byte that exist.
pub const PMP_CFG_MASK: u8 = 0x9f;
pub const PMP_ADDR_MASK: u64 = 0x3f_ffff_ffff_ffff;

/// RV64 with the A, B, C, D, F, I, M, S and U extensions.
pub const MISA_VALUE: u64 = 0x14_112f;
pub const MISA_MXL: u64 = 0x8000_0000_0000_0000;

pub const CSR_FFLAGS: u16 = 0x001;
pub const CSR_FRM: u16 = 0x002;
pub const CSR_FCSR: u16 = 0x003;
pub const CSR_SSTATUS: u16 = 0x100;
pub const CSR_SIE: u16 = 0x104;
pub const CSR_STVEC: u16 = 0x105;
pub const CSR_SCOUNTEREN: u16 = 0x106;
pub const CSR_SENVCFG: u16 = 0x10a;
pub const CSR_SSCRATCH: u16 = 0x140;
pub const CSR_SEPC: u16 = 0x141;
pub const CSR_SCAUSE: u16 = 0x142;
pub const CSR_STVAL: u16 = 0x143;
pub const CSR_SIP: u16 = 0x144;
pub const CSR_STIMER: u16 = 0x14d;
pub const CSR_SATP: u16 = 0x180;
pub const CSR_MSTATUS: u16 = 0x300;
pub const CSR_MISA: u16 = 0x301;
pub const CSR_MEDELEG: u16 = 0x302;
pub const CSR_MIDELEG: u16 = 0x303;
pub const CSR_MIE: u16 = 0x304;
pub const CSR_MTVEC: u16 = 0x305;
pub const CSR_MCOUNTEREN: u16 = 0x306;
pub const CSR_MENVCFG: u16 = 0x30a;
pub const CSR_MCOUNTINHIBIT: u16 = 0x320;
pub const CSR_MSCRATCH: u16 = 0x340;
pub const CSR_MEPC: u16 = 0x341;
pub const CSR_MCAUSE: u16 = 0x342;
pub const CSR_MTVAL: u16 = 0x343;
pub const CSR_MIP: u16 = 0x344;
pub const CSR_PMPCFG0: u16 = 0x3a0;
pub const CSR_PMPCFG2: u16 = 0x3a2;
pub const CSR_PMPADDR0: u16 = 0x3b0;
pub const CSR_PMPADDR15: u16 = 0x3bf;
pub const CSR_MCYCLE: u16 = 0xb00;
pub const CSR_MINSTRET: u16 = 0xb02;
pub const CSR_CYCLE: u16 = 0xc00;
pub const CSR_TIME: u16 = 0xc01;
pub const CSR_INSTRET: u16 = 0xc02;
pub const CSR_MHARTID: u16 = 0xf14;

pub const TLB_SIZE: usize = 256;
pub const PAGE_SIZE: u64 = 4096;

#[derive(Clone, Copy, Debug, PartialEq, Eq, Structural)]
pub enum Privilege {
    User,
    Supervisor,
    Machine,
}

impl Privilege {
    /// The encoding of a privilege in control registers.
    pub open spec fn encoding(self) -> u64 {
        match self {
            Privilege::User => 0,
            Privilege::Supervisor => 1,
            Privilege::Machine => 3,
        }
    }

    pub fn level(self) -> (r: u64)
        ensures
            r == self.encoding(),
    {
        match self {
            Privilege::User => 0,
            Privilege::Supervisor => 1,
            Privilege::Machine => 3,
        }
    }
}

#[derive(Clone, Copy, Debug, PartialEq, Eq, Structural)]
pub enum RunState {
    Running,
    Waiting,
}

#[derive(Clone, Copy, Debug, PartialEq, Eq, Structural)]
pub struct RunOutcome {
    pub cycles: u32,
    pub state: RunState,
}

#[derive(Clone, Copy, Debug, PartialEq, Eq, Structural)]
pub enum BusError {
    AccessFault,
}

impl From<MemoryError> for BusError {
    fn from(_error: MemoryError) -> (r: Self) {
        BusError::AccessFault
    }
}

impl vstd::std_specs::convert::FromSpecImpl<MemoryError> for BusError {
    open spec fn obeys_from_spec() -> bool {
        true
    }

    open spec fn from_spec(_error: MemoryError) -> Self {
        BusError::AccessFault
    }
}

/// Memory and devices as a CPU reaches them. An implementation chooses its
/// model and says, for each operation, what it returns and leaves behind.
pub trait CpuBus: Sized {
    type Model;

    spec fn model(&self) -> Self::Model;

    /// The invariant of the model.
    spec fn valid(m: Self::Model) -> bool;

    spec fn reads(m: Self::Model, address: u64, width: AccessWidth) -> (
        Result<u64, BusError>,
        Self::Model,
    );

    spec fn writes(m: Self::Model, address: u64, width: AccessWidth, value: u64) -> (
        Result<(), BusError>,
        Self::Model,
    );

    spec fn resolves(m: Self::Model, address: u64, len: nat, write: bool) -> (
        Result<ArenaOffset, BusError>,
        Self::Model,
    );

    spec fn arena_of(m: Self::Model) -> Seq<u8>;

    spec fn with_arena(m: Self::Model, arena: Seq<u8>) -> Self::Model;

    spec fn notices(m: Self::Model) -> (bool, Self::Model);

    /// Bytes in the arena can change freely.
    proof fn arena_keeps_valid(m: Self::Model, arena: Seq<u8>)
        requires
            Self::valid(m),
            arena.len() == Self::arena_of(m).len(),
        ensures
            Self::valid(Self::with_arena(m, arena)),
    ;

    /// Reads a naturally sized little-endian value.
    ///
    /// # Errors
    ///
    /// Returns [`BusError::AccessFault`] when the range is not readable.
    fn read(&mut self, address: GuestAddress, width: AccessWidth) -> (r: Result<u64, BusError>)
        requires
            Self::valid(old(self).model()),
        ensures
            (r, final(self).model()) == Self::reads(old(self).model(), address.0, width),
            Self::valid(final(self).model()),
    ;

    /// Writes a naturally sized little-endian value.
    ///
    /// # Errors
    ///
    /// Returns [`BusError::AccessFault`] when the range is not writable.
    fn write(&mut self, address: GuestAddress, width: AccessWidth, value: u64) -> (r: Result<
        (),
        BusError,
    >)
        requires
            Self::valid(old(self).model()),
        ensures
            (r, final(self).model()) == Self::writes(old(self).model(), address.0, width, value),
            Self::valid(final(self).model()),
    ;

    /// Resolves a contiguous RAM range to its arena offset.
    ///
    /// # Errors
    ///
    /// Returns [`BusError::AccessFault`] when the range is not suitable RAM.
    fn ram_range(&mut self, address: GuestAddress, len: usize, write: bool) -> (r: Result<
        ArenaOffset,
        BusError,
    >)
        requires
            Self::valid(old(self).model()),
        ensures
            (r, final(self).model()) == Self::resolves(
                old(self).model(),
                address.0,
                len as nat,
                write,
            ),
            Self::valid(final(self).model()),
    ;

    fn arena(&self) -> (r: &[u8])
        ensures
            r@ == Self::arena_of(self.model()),
    ;

    fn arena_mut(&mut self) -> (r: &mut [u8])
        ensures
            r@ == Self::arena_of(old(self).model()),
            final(self).model() == Self::with_arena(old(self).model(), final(r)@),
    ;

    /// Whether an access changed the state of an interrupt line; asking clears
    /// the answer.
    fn take_interrupt_state_changed(&mut self) -> (r: bool)
        requires
            Self::valid(old(self).model()),
        ensures
            (r, final(self).model()) == Self::notices(old(self).model()),
            Self::valid(final(self).model()),
    ;
}

/// The result of a memory operation as a bus reports it.
pub open spec fn bus_result<T>(r: Result<T, crate::memory::MemoryError>) -> Result<T, BusError> {
    match r {
        Ok(value) => Ok(value),
        Err(_) => Err(BusError::AccessFault),
    }
}

impl CpuBus for PhysicalMemory {
    type Model = MemoryModel;

    open spec fn model(&self) -> MemoryModel {
        self@
    }

    open spec fn valid(m: MemoryModel) -> bool {
        m.valid()
    }

    open spec fn reads(m: MemoryModel, address: u64, width: AccessWidth) -> (
        Result<u64, BusError>,
        MemoryModel,
    ) {
        (bus_result(m.read_value(address, width)), m)
    }

    open spec fn writes(m: MemoryModel, address: u64, width: AccessWidth, value: u64) -> (
        Result<(), BusError>,
        MemoryModel,
    ) {
        (
            if m.resolve(address, width.size(), true) is Ok {
                Ok(())
            } else {
                Err(BusError::AccessFault)
            },
            m.write_value(address, width, value),
        )
    }

    open spec fn resolves(m: MemoryModel, address: u64, len: nat, write: bool) -> (
        Result<ArenaOffset, BusError>,
        MemoryModel,
    ) {
        (
            match m.resolve(address, len, write) {
                Ok(offset) => Ok(ArenaOffset(offset as u32)),
                Err(_) => Err(BusError::AccessFault),
            },
            m.accessed(address, len, write),
        )
    }

    open spec fn arena_of(m: MemoryModel) -> Seq<u8> {
        m.arena
    }

    open spec fn with_arena(m: MemoryModel, arena: Seq<u8>) -> MemoryModel {
        MemoryModel { arena, ..m }
    }

    open spec fn notices(m: MemoryModel) -> (bool, MemoryModel) {
        (false, m)
    }

    proof fn arena_keeps_valid(m: MemoryModel, arena: Seq<u8>) {
        crate::memory::lemma_arena_keeps_valid(m, arena);
    }

    fn read(&mut self, address: GuestAddress, width: AccessWidth) -> (r: Result<u64, BusError>) {
        match PhysicalMemory::read(self, address, width) {
            Ok(value) => Ok(value),
            Err(_) => Err(BusError::AccessFault),
        }
    }

    fn write(&mut self, address: GuestAddress, width: AccessWidth, value: u64) -> (r: Result<
        (),
        BusError,
    >) {
        match PhysicalMemory::write(self, address, width, value) {
            Ok(()) => Ok(()),
            Err(_) => Err(BusError::AccessFault),
        }
    }

    fn ram_range(&mut self, address: GuestAddress, len: usize, write: bool) -> (r: Result<
        ArenaOffset,
        BusError,
    >) {
        match PhysicalMemory::ram_range(self, address, len, write) {
            Ok(offset) => Ok(offset),
            Err(_) => Err(BusError::AccessFault),
        }
    }

    fn arena(&self) -> (r: &[u8]) {
        PhysicalMemory::arena(self)
    }

    fn arena_mut(&mut self) -> (r: &mut [u8]) {
        PhysicalMemory::arena_mut(self)
    }

    fn take_interrupt_state_changed(&mut self) -> (r: bool) {
        false
    }
}

#[derive(Clone, Copy, Debug, PartialEq, Eq, Structural)]
pub enum CsrError {
    IllegalAccess,
}

#[derive(Clone, Copy, Debug, PartialEq, Eq, Structural)]
pub enum Exception {
    InstructionAddressMisaligned,
    InstructionAccessFault,
    IllegalInstruction,
    Breakpoint,
    LoadAddressMisaligned,
    LoadAccessFault,
    StoreAddressMisaligned,
    StoreAccessFault,
    UserEnvironmentCall,
    SupervisorEnvironmentCall,
    MachineEnvironmentCall,
    InstructionPageFault,
    LoadPageFault,
    StorePageFault,
}

impl Exception {
    /// The cause number of an exception.
    pub open spec fn number(self) -> u32 {
        match self {
            Exception::InstructionAddressMisaligned => 0,
            Exception::InstructionAccessFault => 1,
            Exception::IllegalInstruction => 2,
            Exception::Breakpoint => 3,
            Exception::LoadAddressMisaligned => 4,
            Exception::LoadAccessFault => 5,
            Exception::StoreAddressMisaligned => 6,
            Exception::StoreAccessFault => 7,
            Exception::UserEnvironmentCall => 8,
            Exception::SupervisorEnvironmentCall => 9,
            Exception::MachineEnvironmentCall => 11,
            Exception::InstructionPageFault => 12,
            Exception::LoadPageFault => 13,
            Exception::StorePageFault => 15,
        }
    }

    pub fn cause(self) -> (r: u32)
        ensures
            r == self.number(),
            r < 32,
    {
        match self {
            Exception::InstructionAddressMisaligned => 0,
            Exception::InstructionAccessFault => 1,
            Exception::IllegalInstruction => 2,
            Exception::Breakpoint => 3,
            Exception::LoadAddressMisaligned => 4,
            Exception::LoadAccessFault => 5,
            Exception::StoreAddressMisaligned => 6,
            Exception::StoreAccessFault => 7,
            Exception::UserEnvironmentCall => 8,
            Exception::SupervisorEnvironmentCall => 9,
            Exception::MachineEnvironmentCall => 11,
            Exception::InstructionPageFault => 12,
            Exception::LoadPageFault => 13,
            Exception::StorePageFault => 15,
        }
    }
}

#[derive(Clone, Copy, Debug, PartialEq, Eq, Structural)]
pub struct Trap {
    pub exception: Exception,
    pub value: u64,
}

#[derive(Clone, Copy, Debug, PartialEq, Eq, Structural)]
pub enum InstructionFlow {
    Sequential,
    Exit,
}

#[derive(Clone, Copy, Debug, PartialEq, Eq, Structural)]
pub struct InstructionOutcome {
    pub next_pc: u64,
    pub retired: bool,
    pub flow: InstructionFlow,
}

impl InstructionOutcome {
    pub open spec fn following(next_pc: u64) -> InstructionOutcome {
        InstructionOutcome { next_pc, retired: true, flow: InstructionFlow::Sequential }
    }

    pub open spec fn leaving(next_pc: u64, retired: bool) -> InstructionOutcome {
        InstructionOutcome { next_pc, retired, flow: InstructionFlow::Exit }
    }

    pub fn sequential(next_pc: u64) -> (r: Self)
        ensures
            r == InstructionOutcome::following(next_pc),
    {
        InstructionOutcome { next_pc, retired: true, flow: InstructionFlow::Sequential }
    }

    pub fn exit(next_pc: u64, retired: bool) -> (r: Self)
        ensures
            r == InstructionOutcome::leaving(next_pc, retired),
    {
        InstructionOutcome { next_pc, retired, flow: InstructionFlow::Exit }
    }
}

/// A cached translation of a virtual page to its place in the arena.
#[derive(Clone, Copy, Debug, PartialEq, Eq, Structural)]
pub struct TlbEntry {
    pub virtual_page: u64,
    pub arena_page: ArenaOffset,
}

/// The entry that matches no page.
pub open spec fn empty_entry() -> TlbEntry {
    TlbEntry { virtual_page: u64::MAX, arena_page: ArenaOffset(0) }
}

pub open spec fn empty_tlb() -> Seq<TlbEntry> {
    Seq::new(TLB_SIZE as nat, |i: int| empty_entry())
}

impl Default for TlbEntry {
    fn default() -> (r: Self)
        ensures
            r == empty_entry(),
    {
        TlbEntry { virtual_page: u64::MAX, arena_page: ArenaOffset(0) }
    }
}

/// A position in a page of instructions.
#[derive(Clone, Copy, Debug, PartialEq, Eq, Structural)]
pub struct ExecuteChunk {
    pub virtual_page: u64,
    pub arena_page: ArenaOffset,
    pub next_offset: u16,
}

/// An address that a load has reserved for a conditional store.
#[derive(Clone, Copy, Debug, PartialEq, Eq, Structural)]
pub struct Reservation {
    pub address: u64,
    pub width: AccessWidth,
}

/// The scalar registers of a CPU.
#[derive(Clone, Copy, Debug, PartialEq, Eq, Structural)]
pub struct Control {
    pub pc: u64,
    pub fflags: u8,
    pub frm: u8,
    pub privilege: Privilege,
    pub power_down: bool,
    pub elapsed_cycles: u64,
    pub cycle: u64,
    pub instret: u64,
    pub time: Option<u64>,
    pub mstatus: u64,
    pub mtvec: u64,
    pub mscratch: u64,
    pub mepc: u64,
    pub mcause: u64,
    pub mtval: u64,
    pub mhartid: u64,
    pub misa: u64,
    pub mie: u32,
    pub mip: u32,
    pub medeleg: u32,
    pub mideleg: u32,
    pub mcounteren: u32,
    pub menvcfg: u64,
    pub senvcfg: u64,
    pub stimer: u64,
    pub stvec: u64,
    pub sscratch: u64,
    pub sepc: u64,
    pub scause: u64,
    pub stval: u64,
    pub satp: u64,
    pub scounteren: u32,
    pub reservation: Option<Reservation>,
}

#[derive(Clone, Debug)]
pub struct Cpu {
    pub control: Control,
    pub registers: [u64; 32],
    pub fp_registers: [u64; 32],
    pub pmpcfg: [u8; 16],
    pub pmpaddr: [u64; 16],
    pub tlb_read: [TlbEntry; 256],
    pub tlb_write: [TlbEntry; 256],
    pub tlb_execute: [TlbEntry; 256],
}

/// The model of a CPU.
#[verifier::ext_equal]
pub struct CpuModel {
    pub control: Control,
    pub registers: Seq<u64>,
    pub fp_registers: Seq<u64>,
    pub pmpcfg: Seq<u8>,
    pub pmpaddr: Seq<u64>,
    pub tlb_read: Seq<TlbEntry>,
    pub tlb_write: Seq<TlbEntry>,
    pub tlb_execute: Seq<TlbEntry>,
}

impl View for Cpu {
    type V = CpuModel;

    open spec fn view(&self) -> CpuModel {
        CpuModel {
            control: self.control,
            registers: self.registers@,
            fp_registers: self.fp_registers@,
            pmpcfg: self.pmpcfg@,
            pmpaddr: self.pmpaddr@,
            tlb_read: self.tlb_read@,
            tlb_write: self.tlb_write@,
            tlb_execute: self.tlb_execute@,
        }
    }
}

/// The state of a CPU after reset.
pub open spec fn reset_control(hart_id: u64) -> Control {
    Control {
        pc: 0x1000,
        fflags: 0,
        frm: 0,
        privilege: Privilege::Machine,
        power_down: false,
        elapsed_cycles: 0,
        cycle: 0,
        instret: 0,
        time: None,
        mstatus: 0,
        mtvec: 0,
        mscratch: 0,
        mepc: 0,
        mcause: 0,
        mtval: 0,
        mhartid: hart_id,
        misa: MISA_VALUE,
        mie: 0,
        mip: 0,
        medeleg: 0,
        mideleg: 0,
        mcounteren: 0,
        menvcfg: 0,
        senvcfg: 0,
        stimer: u64::MAX,
        stvec: 0,
        sscratch: 0,
        sepc: 0,
        scause: 0,
        stval: 0,
        satp: 0,
        scounteren: 0,
        reservation: None,
    }
}

pub open spec fn reset_model(hart_id: u64) -> CpuModel {
    CpuModel {
        control: reset_control(hart_id),
        registers: Seq::new(32, |i: int| 0u64),
        fp_registers: Seq::new(32, |i: int| u64::MAX),
        pmpcfg: Seq::new(16, |i: int| 0u8),
        pmpaddr: Seq::new(16, |i: int| 0u64),
        tlb_read: empty_tlb(),
        tlb_write: empty_tlb(),
        tlb_execute: empty_tlb(),
    }
}

/// The legal value of an environment configuration.
pub open spec fn legal_envcfg(value: u64) -> u64 {
    let kept = value & ENVCFG_CBO_MASK;
    if kept & ENVCFG_CBIE == 0x20 {
        kept & !ENVCFG_CBIE
    } else {
        kept
    }
}

fn valid_envcfg(value: u64) -> (r: u64)
    ensures
        r == legal_envcfg(value),
{
    let kept: u64 = value & ENVCFG_CBO_MASK;
    if kept & ENVCFG_CBIE == 0x20 {
        kept & !ENVCFG_CBIE
    } else {
        kept
    }
}

/// The legal value of a PMP configuration byte.
pub open spec fn legal_pmpcfg(value: u8) -> u8 {
    let config = value & PMP_CFG_MASK;
    if config & (PMP_CFG_R | PMP_CFG_W) == PMP_CFG_W {
        config & !PMP_CFG_W
    } else {
        config
    }
}

impl Control {
    /// Raises or clears the supervisor timer interrupt for a moment in time,
    /// and wakes the CPU for an enabled interrupt.
    pub open spec fn at_time(self, time: u64) -> Control {
        let mip = if self.menvcfg & MENVCFG_STCE == 0 {
            self.mip
        } else if time >= self.stimer {
            self.mip | MIP_STIP
        } else {
            self.mip & !MIP_STIP
        };
        Control {
            time: Some(time),
            mip,
            power_down: self.power_down && mip & self.mie == 0,
            ..self
        }
    }

    pub open spec fn with_interrupts(self, mask: u32) -> Control {
        let mip = self.mip | mask;
        Control { mip, power_down: self.power_down && mip & self.mie == 0, ..self }
    }

    /// The highest-priority interrupt that the CPU would take.
    pub open spec fn pending_interrupt(self) -> Option<u32> {
        let enabled = match self.privilege {
            Privilege::Machine => if self.mstatus & MSTATUS_MIE != 0 {
                !self.mideleg
            } else {
                0
            },
            Privilege::Supervisor => if self.mstatus & MSTATUS_SIE != 0 {
                !self.mideleg | self.mideleg
            } else {
                !self.mideleg
            },
            Privilege::User => u32::MAX,
        };
        let active = (self.mip & self.mie) & enabled;
        if active & MIP_MEIP != 0 {
            Some(11)
        } else if active & MIP_MSIP != 0 {
            Some(3)
        } else if active & MIP_MTIP != 0 {
            Some(7)
        } else if active & MIP_SEIP != 0 {
            Some(9)
        } else if active & MIP_SSIP != 0 {
            Some(1)
        } else if active & MIP_STIP != 0 {
            Some(5)
        } else {
            None
        }
    }

    pub open spec fn status_value(self, mask: u64) -> u64 {
        let value = self.mstatus | 0xa_0000_0000;
        (value | (if value & MSTATUS_FS == MSTATUS_FS {
            0x8000_0000_0000_0000
        } else {
            0
        })) & mask
    }

    pub open spec fn fp_on(self) -> bool {
        self.mstatus & MSTATUS_FS != 0
    }

    pub open spec fn counter_on(self, mask: u32) -> bool {
        self.privilege is Machine || (self.mcounteren & mask != 0 && (!(self.privilege is User)
            || self.scounteren & mask != 0))
    }

    /// Whether an access to a control register is refused whatever it holds.
    pub open spec fn csr_barred(self, csr: u16, will_write: bool) -> bool {
        ||| csr & 0xc00 == 0xc00 && will_write
        ||| self.privilege.encoding() < ((csr >> 8) & 3)
        ||| csr == CSR_SATP && self.privilege is Supervisor && self.mstatus & MSTATUS_TVM != 0
        ||| csr == CSR_STIMER && !(self.privilege is Machine) && (self.menvcfg & MENVCFG_STCE == 0
            || self.mcounteren & 2 == 0)
    }
}

impl CpuModel {
    /// The register `index`; register zero always reads zero.
    pub open spec fn with_register(self, index: int, value: u64) -> CpuModel {
        if index == 0 {
            self
        } else {
            CpuModel { registers: self.registers.update(index, value), ..self }
        }
    }

    pub open spec fn with_control(self, control: Control) -> CpuModel {
        CpuModel { control, ..self }
    }

    pub open spec fn flushed(self) -> CpuModel {
        CpuModel {
            tlb_read: empty_tlb(),
            tlb_write: empty_tlb(),
            tlb_execute: empty_tlb(),
            ..self
        }
    }

    /// A CPU always has 32 registers of each kind, 16 PMP entries, three
    /// translation caches, and a zero register that holds zero.
    pub open spec fn well_formed(self) -> bool {
        &&& self.registers.len() == 32
        &&& self.fp_registers.len() == 32
        &&& self.pmpcfg.len() == 16
        &&& self.pmpaddr.len() == 16
        &&& self.tlb_read.len() == 256
        &&& self.tlb_write.len() == 256
        &&& self.tlb_execute.len() == 256
        &&& self.registers[0] == 0
    }

    pub open spec fn in_privilege(self, privilege: Privilege) -> CpuModel {
        if self.control.privilege == privilege {
            self
        } else {
            self.with_control(Control { privilege, ..self.control }).flushed()
        }
    }

    /// The CPU after it takes a trap.
    pub open spec fn trapped(self, cause: u32, interrupt: bool, value: u64) -> CpuModel {
        let c = self.control;
        let delegated = !(c.privilege is Machine) && (if interrupt {
            c.mideleg & (1u32 << cause) != 0
        } else {
            c.medeleg & (1u32 << cause) != 0
        });
        let encoded = (cause as u64) | (if interrupt {
            0x8000_0000_0000_0000u64
        } else {
            0
        });
        let old_ie = (c.mstatus >> c.privilege.encoding()) & 1;
        if delegated {
            let saved = (c.mstatus & !MSTATUS_SPIE) | (old_ie << 5);
            let spp = (saved & !MSTATUS_SPP) | (if c.privilege is Supervisor {
                MSTATUS_SPP
            } else {
                0
            });
            let next = self.with_control(
                Control {
                    scause: encoded,
                    sepc: c.pc,
                    stval: value,
                    mstatus: spp & !MSTATUS_SIE,
                    ..c
                },
            ).in_privilege(Privilege::Supervisor);
            next.with_control(Control { pc: c.stvec, ..next.control })
        } else {
            let saved = (c.mstatus & !MSTATUS_MPIE) | (old_ie << 7);
            let mpp = (saved & !MSTATUS_MPP) | (c.privilege.encoding() << 11);
            let next = self.with_control(
                Control {
                    mcause: encoded,
                    mepc: c.pc,
                    mtval: value,
                    mstatus: mpp & !MSTATUS_MIE,
                    ..c
                },
            ).in_privilege(Privilege::Machine);
            next.with_control(Control { pc: c.mtvec, ..next.control })
        }
    }

    /// The CPU with a new `mstatus`. Changing how addresses are translated
    /// drops cached translations.
    pub open spec fn with_status(self, value: u64) -> CpuModel {
        let c = self.control;
        let changed = c.mstatus ^ value;
        let next = if changed & (MSTATUS_MPRV | MSTATUS_SUM | MSTATUS_MXR) != 0 || (c.mstatus
            & MSTATUS_MPRV != 0 && changed & MSTATUS_MPP != 0) {
            self.flushed()
        } else {
            self
        };
        next.with_control(
            Control {
                mstatus: (c.mstatus & !MSTATUS_MASK) | (value & MSTATUS_MASK),
                ..c
            },
        )
    }

    pub open spec fn pmpcfg_register(self, first: int) -> u64 {
        bytes::le_value(self.pmpcfg.subrange(first, first + 8)) as u64
    }

    /// The PMP configuration after a write of eight entries; locked entries
    /// stay as they are.
    pub open spec fn pmpcfg_written(self, first: int, value: u64) -> Seq<u8> {
        Seq::new(
            self.pmpcfg.len(),
            |i: int|
                if first <= i < first + 8 && self.pmpcfg[i] & PMP_CFG_L == 0 {
                    legal_pmpcfg(bytes::le_bytes(value as nat, 8)[i - first])
                } else {
                    self.pmpcfg[i]
                },
        )
    }

    pub open spec fn with_pmpcfg(self, first: int, value: u64) -> CpuModel {
        let written = self.pmpcfg_written(first, value);
        if written == self.pmpcfg {
            self
        } else {
            CpuModel { pmpcfg: written, ..self }.flushed()
        }
    }

    /// Whether a PMP address is locked, by its own entry or as the lower bound
    /// of a locked range above it.
    pub open spec fn pmpaddr_locked(self, entry: int) -> bool {
        ||| self.pmpcfg[entry] & PMP_CFG_L != 0
        ||| entry + 1 < 16 && self.pmpcfg[entry + 1] & (PMP_CFG_L | PMP_CFG_A_MASK) == (PMP_CFG_L
            | PMP_CFG_A_TOR)
    }

    pub open spec fn with_pmpaddr(self, entry: int, value: u64) -> CpuModel {
        let kept = value & PMP_ADDR_MASK;
        if self.pmpaddr_locked(entry) || self.pmpaddr[entry] == kept {
            self
        } else {
            CpuModel { pmpaddr: self.pmpaddr.update(entry, kept), ..self }.flushed()
        }
    }

    /// What a read of a control register gives.
    pub open spec fn csr_value(self, csr: u16, will_write: bool) -> Result<u64, CsrError> {
        let c = self.control;
        if c.csr_barred(csr, will_write) {
            Err(CsrError::IllegalAccess)
        } else if csr == CSR_FFLAGS && c.fp_on() {
            Ok(c.fflags as u64)
        } else if csr == CSR_FRM && c.fp_on() {
            Ok(c.frm as u64)
        } else if csr == CSR_FCSR && c.fp_on() {
            Ok((c.fflags | (c.frm << 5)) as u64)
        } else if csr == CSR_CYCLE && c.counter_on(1) {
            Ok(c.cycle)
        } else if csr == CSR_TIME && c.counter_on(2) {
            match c.time {
                Some(time) => Ok(time),
                None => Err(CsrError::IllegalAccess),
            }
        } else if csr == CSR_INSTRET && c.counter_on(4) {
            Ok(c.instret)
        } else if csr == CSR_SSTATUS {
            Ok(c.status_value(SSTATUS_MASK | MSTATUS_UXL))
        } else if csr == CSR_SIE {
            Ok((c.mie & c.mideleg) as u64)
        } else if csr == CSR_STVEC {
            Ok(c.stvec)
        } else if csr == CSR_SCOUNTEREN {
            Ok(c.scounteren as u64)
        } else if csr == CSR_SENVCFG {
            Ok(c.senvcfg)
        } else if csr == CSR_SSCRATCH {
            Ok(c.sscratch)
        } else if csr == CSR_SEPC {
            Ok(c.sepc)
        } else if csr == CSR_SCAUSE {
            Ok(c.scause)
        } else if csr == CSR_STVAL {
            Ok(c.stval)
        } else if csr == CSR_SIP {
            Ok((c.mip & c.mideleg) as u64)
        } else if csr == CSR_STIMER {
            Ok(c.stimer)
        } else if csr == CSR_SATP {
            Ok(c.satp)
        } else if csr == CSR_MSTATUS {
            Ok(c.status_value(u64::MAX))
        } else if csr == CSR_MISA {
            Ok(c.misa | MISA_MXL)
        } else if csr == CSR_MEDELEG {
            Ok(c.medeleg as u64)
        } else if csr == CSR_MIDELEG {
            Ok(c.mideleg as u64)
        } else if csr == CSR_MIE {
            Ok(c.mie as u64)
        } else if csr == CSR_MTVEC {
            Ok(c.mtvec)
        } else if csr == CSR_MCOUNTEREN {
            Ok(c.mcounteren as u64)
        } else if csr == CSR_MENVCFG {
            Ok(c.menvcfg)
        } else if csr == CSR_MCOUNTINHIBIT {
            Ok(0)
        } else if csr == CSR_PMPCFG0 {
            Ok(self.pmpcfg_register(0))
        } else if csr == CSR_PMPCFG2 {
            Ok(self.pmpcfg_register(8))
        } else if csr == CSR_MSCRATCH {
            Ok(c.mscratch)
        } else if csr == CSR_MEPC {
            Ok(c.mepc)
        } else if csr == CSR_MCAUSE {
            Ok(c.mcause)
        } else if csr == CSR_MTVAL {
            Ok(c.mtval)
        } else if csr == CSR_MIP {
            Ok(c.mip as u64)
        } else if csr == CSR_MCYCLE {
            Ok(c.cycle)
        } else if csr == CSR_MINSTRET {
            Ok(c.instret)
        } else if CSR_PMPADDR0 <= csr <= CSR_PMPADDR15 {
            Ok(self.pmpaddr[csr - CSR_PMPADDR0])
        } else if csr == CSR_MHARTID {
            Ok(c.mhartid)
        } else if 0xf11 <= csr <= 0xf15 {
            Ok(0)
        } else {
            Err(CsrError::IllegalAccess)
        }
    }

    /// Whether a control register exists for writing.
    pub open spec fn csr_writable(self, csr: u16) -> bool {
        ||| (csr == CSR_FFLAGS || csr == CSR_FRM || csr == CSR_FCSR) && self.control.fp_on()
        ||| csr == CSR_SSTATUS || csr == CSR_SIE || csr == CSR_STVEC || csr == CSR_SCOUNTEREN
        ||| csr == CSR_SENVCFG || csr == CSR_SSCRATCH || csr == CSR_SEPC || csr == CSR_SCAUSE
        ||| csr == CSR_STVAL || csr == CSR_SIP || csr == CSR_STIMER || csr == CSR_SATP
        ||| csr == CSR_MSTATUS || csr == CSR_MISA || csr == CSR_MCOUNTINHIBIT || csr == CSR_MEDELEG
        ||| csr == CSR_MIDELEG || csr == CSR_MIE || csr == CSR_MTVEC || csr == CSR_MCOUNTEREN
        ||| csr == CSR_MENVCFG || csr == CSR_PMPCFG0 || csr == CSR_PMPCFG2 || csr == CSR_MSCRATCH
        ||| csr == CSR_MEPC || csr == CSR_MCAUSE || csr == CSR_MTVAL || csr == CSR_MIP
        ||| csr == CSR_MCYCLE || csr == CSR_MINSTRET
        ||| CSR_PMPADDR0 <= csr <= CSR_PMPADDR15
    }

    /// The CPU after a write of a control register that exists.
    pub open spec fn csr_written(self, csr: u16, value: u64) -> CpuModel {
        let c = self.control;
        let low = value as u32;
        let keep_timer = c.menvcfg & MENVCFG_STCE != 0;
        if !self.csr_writable(csr) {
            self
        } else if csr == CSR_FFLAGS {
            self.with_control(
                Control {
                    fflags: (value % 32) as u8,
                    mstatus: c.mstatus | MSTATUS_FS,
                    ..c
                },
            )
        } else if csr == CSR_FRM {
            self.with_control(
                Control { frm: (value % 8) as u8, mstatus: c.mstatus | MSTATUS_FS, ..c },
            )
        } else if csr == CSR_FCSR {
            self.with_control(
                Control {
                    fflags: (value % 32) as u8,
                    frm: (value / 32 % 8) as u8,
                    mstatus: c.mstatus | MSTATUS_FS,
                    ..c
                },
            )
        } else if csr == CSR_SSTATUS {
            self.with_status((c.mstatus & !SSTATUS_MASK) | (value & SSTATUS_MASK))
        } else if csr == CSR_SIE {
            self.with_control(
                Control { mie: (c.mie & !c.mideleg) | (low & c.mideleg), ..c },
            )
        } else if csr == CSR_STVEC {
            self.with_control(Control { stvec: value & !3, ..c })
        } else if csr == CSR_SCOUNTEREN {
            self.with_control(Control { scounteren: low & COUNTEREN_MASK, ..c })
        } else if csr == CSR_SENVCFG {
            self.with_control(Control { senvcfg: legal_envcfg(value), ..c })
        } else if csr == CSR_SSCRATCH {
            self.with_control(Control { sscratch: value, ..c })
        } else if csr == CSR_SEPC {
            self.with_control(Control { sepc: value & !1, ..c })
        } else if csr == CSR_SCAUSE {
            self.with_control(Control { scause: value, ..c })
        } else if csr == CSR_STVAL {
            self.with_control(Control { stval: value, ..c })
        } else if csr == CSR_SIP {
            let mask = if keep_timer {
                c.mideleg & !MIP_STIP
            } else {
                c.mideleg
            };
            self.with_control(Control { mip: (c.mip & !mask) | (low & mask), ..c })
        } else if csr == CSR_STIMER {
            let next = Control { stimer: value, ..c };
            self.with_control(
                match c.time {
                    Some(time) => next.at_time(time),
                    None => next,
                },
            )
        } else if csr == CSR_SATP {
            let requested = value >> 60;
            let mode = if requested == 0 || requested == 8 {
                requested
            } else {
                c.satp >> 60
            };
            self.with_control(
                Control { satp: (value & 0xfff_ffff_ffff) | (mode << 60), ..c },
            ).flushed()
        } else if csr == CSR_MSTATUS {
            self.with_status(value)
        } else if csr == CSR_MISA || csr == CSR_MCOUNTINHIBIT {
            self
        } else if csr == CSR_MEDELEG {
            self.with_control(Control { medeleg: low & 0xffff, ..c })
        } else if csr == CSR_MIDELEG {
            self.with_control(
                Control { mideleg: low & (MIP_SSIP | MIP_STIP | MIP_SEIP), ..c },
            )
        } else if csr == CSR_MIE {
            let mask = MIP_MSIP | MIP_MTIP | MIP_SSIP | MIP_STIP | MIP_SEIP;
            self.with_control(Control { mie: (c.mie & !mask) | (low & mask), ..c })
        } else if csr == CSR_MTVEC {
            self.with_control(Control { mtvec: value & !3, ..c })
        } else if csr == CSR_MCOUNTEREN {
            self.with_control(Control { mcounteren: low & COUNTEREN_MASK, ..c })
        } else if csr == CSR_MENVCFG {
            let menvcfg = legal_envcfg(value) | (value & (MENVCFG_ADUE | MENVCFG_PBMTE
                | MENVCFG_STCE));
            let next = Control { menvcfg, ..c };
            let timed = if menvcfg & MENVCFG_STCE == 0 {
                Control { mip: c.mip & !MIP_STIP, ..next }
            } else {
                match c.time {
                    Some(time) => next.at_time(time),
                    None => next,
                }
            };
            if (c.menvcfg ^ menvcfg) & (MENVCFG_ADUE | MENVCFG_PBMTE) != 0 {
                self.with_control(timed).flushed()
            } else {
                self.with_control(timed)
            }
        } else if csr == CSR_PMPCFG0 {
            self.with_pmpcfg(0, value)
        } else if csr == CSR_PMPCFG2 {
            self.with_pmpcfg(8, value)
        } else if csr == CSR_MSCRATCH {
            self.with_control(Control { mscratch: value, ..c })
        } else if csr == CSR_MEPC {
            self.with_control(Control { mepc: value & !1, ..c })
        } else if csr == CSR_MCAUSE {
            self.with_control(Control { mcause: value, ..c })
        } else if csr == CSR_MTVAL {
            self.with_control(Control { mtval: value, ..c })
        } else if csr == CSR_MIP {
            let mask = if keep_timer {
                (MIP_SSIP | MIP_STIP) & !MIP_STIP
            } else {
                MIP_SSIP | MIP_STIP
            };
            self.with_control(Control { mip: (c.mip & !mask) | (low & mask), ..c })
        } else if csr == CSR_MCYCLE {
            self.with_control(Control { cycle: value, ..c })
        } else if csr == CSR_MINSTRET {
            self.with_control(Control { instret: value, ..c })
        } else {
            self.with_pmpaddr(csr - CSR_PMPADDR0, value)
        }
    }
}

impl Default for Cpu {
    fn default() -> (r: Self)
        ensures
            r@ == reset_model(0),
    {
        Cpu::new(0)
    }
}

impl Cpu {
    #[must_use]
    pub fn new(hart_id: u64) -> (r: Self)
        ensures
            r@ == reset_model(hart_id),
            r@.well_formed(),
    {
        let entry = TlbEntry { virtual_page: u64::MAX, arena_page: ArenaOffset(0) };
        let control = Control {
            pc: 0x1000,
            fflags: 0,
            frm: 0,
            privilege: Privilege::Machine,
            power_down: false,
            elapsed_cycles: 0,
            cycle: 0,
            instret: 0,
            time: None,
            mstatus: 0,
            mtvec: 0,
            mscratch: 0,
            mepc: 0,
            mcause: 0,
            mtval: 0,
            mhartid: hart_id,
            misa: MISA_VALUE,
            mie: 0,
            mip: 0,
            medeleg: 0,
            mideleg: 0,
            mcounteren: 0,
            menvcfg: 0,
            senvcfg: 0,
            stimer: u64::MAX,
            stvec: 0,
            sscratch: 0,
            sepc: 0,
            scause: 0,
            stval: 0,
            satp: 0,
            scounteren: 0,
            reservation: None,
        };
        let cpu = Cpu {
            control,
            registers: [0; 32],
            fp_registers: [u64::MAX; 32],
            pmpcfg: [0; 16],
            pmpaddr: [0; 16],
            tlb_read: [entry; 256],
            tlb_write: [entry; 256],
            tlb_execute: [entry; 256],
        };
        assert(cpu@ =~= reset_model(hart_id));
        cpu
    }

    #[must_use]
    pub fn pc(&self) -> (r: u64)
        ensures
            r == self@.control.pc,
    {
        self.control.pc
    }

    pub fn set_pc(&mut self, pc: u64)
        ensures
            final(self)@ == old(self)@.with_control(
                Control { pc, ..old(self)@.control },
            ).flushed(),
    {
        self.control.pc = pc;
        self.flush_tlb();
    }

    #[must_use]
    pub fn register(&self, index: usize) -> (r: u64)
        requires
            index < 32,
        ensures
            r == self@.registers[index as int],
    {
        self.registers[index]
    }

    pub fn set_register(&mut self, index: usize, value: u64)
        requires
            index < 32,
        ensures
            final(self)@ == old(self)@.with_register(index as int, value),
    {
        if index != 0 {
            self.registers[index] = value;
        }
    }

    #[must_use]
    pub fn fp_register_bits(&self, index: usize) -> (r: u64)
        requires
            index < 32,
        ensures
            r == self@.fp_registers[index as int],
    {
        self.fp_registers[index]
    }

    pub fn set_fp_register_bits(&mut self, index: usize, value: u64)
        requires
            index < 32,
        ensures
            final(self)@ == (CpuModel {
                fp_registers: old(self)@.fp_registers.update(index as int, value),
                ..old(self)@
            }),
    {
        self.fp_registers[index] = value;
    }

    #[must_use]
    pub fn privilege(&self) -> (r: Privilege)
        ensures
            r == self@.control.privilege,
    {
        self.control.privilege
    }

    #[must_use]
    pub fn elapsed_cycles(&self) -> (r: u64)
        ensures
            r == self@.control.elapsed_cycles,
    {
        self.control.elapsed_cycles
    }

    #[must_use]
    pub fn retired_instructions(&self) -> (r: u64)
        ensures
            r == self@.control.instret,
    {
        self.control.instret
    }

    pub fn set_time(&mut self, time: u64)
        ensures
            final(self)@ == old(self)@.with_control(old(self)@.control.at_time(time)),
    {
        self.control.time = Some(time);
        if self.control.menvcfg & MENVCFG_STCE != 0 {
            if time >= self.control.stimer {
                self.control.mip = self.control.mip | MIP_STIP;
            } else {
                self.control.mip = self.control.mip & !MIP_STIP;
            }
        }
        if self.control.mip & self.control.mie != 0 {
            self.control.power_down = false;
        }
    }

    pub fn set_interrupts(&mut self, mask: u32)
        ensures
            final(self)@ == old(self)@.with_control(old(self)@.control.with_interrupts(mask)),
    {
        self.control.mip = self.control.mip | mask;
        if self.control.mip & self.control.mie != 0 {
            self.control.power_down = false;
        }
    }

    pub fn clear_interrupts(&mut self, mask: u32)
        ensures
            final(self)@ == old(self)@.with_control(
                Control { mip: old(self)@.control.mip & !mask, ..old(self)@.control },
            ),
    {
        self.control.mip = self.control.mip & !mask;
    }

    /// Reads a CSR using the CPU's current privilege.
    ///
    /// # Errors
    ///
    /// Returns an error for an unknown CSR, insufficient privilege, or a
    /// counter disabled for the current privilege.
    pub fn read_csr(&mut self, csr: u16) -> (r: Result<u64, CsrError>)
        ensures
            r == old(self)@.csr_value(csr, false),
            final(self)@ == old(self)@,
    {
        self.csr_read(csr, false)
    }

    /// Writes a CSR using the CPU's current privilege.
    ///
    /// # Errors
    ///
    /// Returns an error for an unknown or read-only CSR or insufficient
    /// privilege.
    pub fn write_csr(&mut self, csr: u16, value: u64) -> (r: Result<(), CsrError>)
        ensures
            r == (if old(self)@.csr_value(csr, true) is Ok && old(self)@.csr_writable(csr) {
                Ok::<(), CsrError>(())
            } else {
                Err(CsrError::IllegalAccess)
            }),
            final(self)@ == (if r is Ok {
                old(self)@.csr_written(csr, value)
            } else {
                old(self)@
            }),
    {
        match self.csr_read(csr, true) {
            Ok(_) => self.csr_write(csr, value),
            Err(error) => Err(error),
        }
    }

    pub fn take_exception(&mut self, trap: Trap)
        ensures
            final(self)@ == old(self)@.trapped(trap.exception.number(), false, trap.value),
    {
        self.take_trap(trap.exception.cause(), false, trap.value);
    }

    pub fn take_interrupt(&mut self, interrupt: u32)
        requires
            interrupt < 32,
        ensures
            final(self)@ == old(self)@.trapped(interrupt, true, 0),
    {
        self.take_trap(interrupt, true, 0);
    }

    fn take_trap(&mut self, cause: u32, interrupt: bool, value: u64)
        requires
            cause < 32,
        ensures
            final(self)@ == old(self)@.trapped(cause, interrupt, value),
    {
        let privilege: Privilege = self.control.privilege;
        let delegated: bool = privilege != Privilege::Machine && if interrupt {
            self.control.mideleg & (1u32 << cause) != 0
        } else {
            self.control.medeleg & (1u32 << cause) != 0
        };
        let encoded: u64 = (cause as u64) | if interrupt {
            0x8000_0000_0000_0000u64
        } else {
            0
        };
        let old_ie: u64 = (self.control.mstatus >> privilege.level()) & 1;
        let pc: u64 = self.control.pc;
        if delegated {
            self.control.scause = encoded;
            self.control.sepc = pc;
            self.control.stval = value;
            let saved: u64 = (self.control.mstatus & !MSTATUS_SPIE) | (old_ie << 5);
            let spp: u64 = (saved & !MSTATUS_SPP) | if privilege == Privilege::Supervisor {
                MSTATUS_SPP
            } else {
                0
            };
            self.control.mstatus = spp & !MSTATUS_SIE;
            self.set_privilege(Privilege::Supervisor);
            self.control.pc = self.control.stvec;
        } else {
            self.control.mcause = encoded;
            self.control.mepc = pc;
            self.control.mtval = value;
            let saved: u64 = (self.control.mstatus & !MSTATUS_MPIE) | (old_ie << 7);
            let mpp: u64 = (saved & !MSTATUS_MPP) | (privilege.level() << 11);
            self.control.mstatus = mpp & !MSTATUS_MIE;
            self.set_privilege(Privilege::Machine);
            self.control.pc = self.control.mtvec;
        }
    }

    pub fn pending_interrupt(&self) -> (r: Option<u32>)
        ensures
            r == self@.control.pending_interrupt(),
            r matches Some(interrupt) ==> interrupt < 32,
    {
        let mideleg: u32 = self.control.mideleg;
        let enabled: u32 = match self.control.privilege {
            Privilege::Machine => if self.control.mstatus & MSTATUS_MIE != 0 {
                !mideleg
            } else {
                0
            },
            Privilege::Supervisor => if self.control.mstatus & MSTATUS_SIE != 0 {
                !mideleg | mideleg
            } else {
                !mideleg
            },
            Privilege::User => u32::MAX,
        };
        let active: u32 = (self.control.mip & self.control.mie) & enabled;
        if active & MIP_MEIP != 0 {
            Some(11)
        } else if active & MIP_MSIP != 0 {
            Some(3)
        } else if active & MIP_MTIP != 0 {
            Some(7)
        } else if active & MIP_SEIP != 0 {
            Some(9)
        } else if active & MIP_SSIP != 0 {
            Some(1)
        } else if active & MIP_STIP != 0 {
            Some(5)
        } else {
            None
        }
    }

    pub fn set_privilege(&mut self, privilege: Privilege)
        ensures
            final(self)@ == old(self)@.in_privilege(privilege),
    {
        if self.control.privilege != privilege {
            self.control.privilege = privilege;
            self.flush_tlb();
        }
    }

    pub fn flush_tlb(&mut self)
        ensures
            final(self)@ == old(self)@.flushed(),
    {
        let entry = TlbEntry { virtual_page: u64::MAX, arena_page: ArenaOffset(0) };
        self.tlb_read = [entry; 256];
        self.tlb_write = [entry; 256];
        self.tlb_execute = [entry; 256];
        assert(self@ =~= old(self)@.flushed());
    }

    fn get_mstatus(&self, mask: u64) -> (r: u64)
        ensures
            r == self@.control.status_value(mask),
    {
        let value: u64 = self.control.mstatus | 0xa_0000_0000;
        (value | if value & MSTATUS_FS == MSTATUS_FS {
            0x8000_0000_0000_0000
        } else {
            0
        }) & mask
    }

    fn set_mstatus(&mut self, value: u64)
        ensures
            final(self)@ == old(self)@.with_status(value),
    {
        let changed: u64 = self.control.mstatus ^ value;
        if changed & (MSTATUS_MPRV | MSTATUS_SUM | MSTATUS_MXR) != 0 || (self.control.mstatus
            & MSTATUS_MPRV != 0 && changed & MSTATUS_MPP != 0) {
            self.flush_tlb();
        }
        self.control.mstatus = (self.control.mstatus & !MSTATUS_MASK) | (value & MSTATUS_MASK);
    }

    fn counter_enabled(&self, mask: u32) -> (r: bool)
        ensures
            r == self@.control.counter_on(mask),
    {
        self.control.privilege == Privilege::Machine || (self.control.mcounteren & mask != 0 && (
        self.control.privilege != Privilege::User || self.control.scounteren & mask != 0))
    }

    pub fn fp_enabled(&self) -> (r: bool)
        ensures
            r == self@.control.fp_on(),
    {
        self.control.mstatus & MSTATUS_FS != 0
    }

    fn pmpcfg_value(&self, first: usize) -> (r: u64)
        requires
            first + 8 <= 16,
        ensures
            r == self@.pmpcfg_register(first as int),
    {
        proof {
            bytes::lemma_le_value_bound(self.pmpcfg@.subrange(first as int, first + 8));
            bytes::lemma_pow256();
        }
        bytes::load_le(self.pmpcfg.as_slice(), first, 8)
    }

    fn set_pmpcfg(&mut self, first: usize, value: u64)
        requires
            first + 8 <= 16,
        ensures
            final(self)@ == old(self)@.with_pmpcfg(first as int, value),
    {
        let data: Vec<u8> = bytes::to_le(value, 8);
        let ghost written = self@.pmpcfg_written(first as int, value);
        let mut changed: bool = false;
        let mut index: usize = 0;
        while index < 8
            invariant
                index <= 8,
                first + 8 <= 16,
                data@ == bytes::le_bytes(value as nat, 8),
                data@.len() == 8,
                written == old(self)@.pmpcfg_written(first as int, value),
                self@ == (CpuModel { pmpcfg: self.pmpcfg@, ..old(self)@ }),
                forall|i: int|
                    0 <= i < 16 ==> self.pmpcfg@[i] == (if first <= i < first + index {
                        written[i]
                    } else {
                        old(self)@.pmpcfg[i]
                    }),
                changed == exists|i: int|
                    first <= i < first + index && written[i] != old(self)@.pmpcfg[i],
            decreases 8 - index,
        {
            let entry: usize = first + index;
            if self.pmpcfg[entry] & PMP_CFG_L == 0 {
                let config: u8 = data[index] & PMP_CFG_MASK;
                let config: u8 = if config & (PMP_CFG_R | PMP_CFG_W) == PMP_CFG_W {
                    config & !PMP_CFG_W
                } else {
                    config
                };
                assert(config == written[entry as int]);
                if self.pmpcfg[entry] != config {
                    changed = true;
                    assert(written[entry as int] != old(self)@.pmpcfg[entry as int]);
                }
                self.pmpcfg[entry] = config;
            }
            index = index + 1;
        }
        proof {
            assert(self.pmpcfg@ =~= written);
            assert(changed == (written != old(self)@.pmpcfg)) by {
                if !changed {
                    assert(written =~= old(self)@.pmpcfg);
                }
            }
        }
        if changed {
            self.flush_tlb();
        }
    }

    fn set_pmpaddr(&mut self, entry: usize, value: u64)
        requires
            entry < 16,
        ensures
            final(self)@ == old(self)@.with_pmpaddr(entry as int, value),
    {
        if self.pmpcfg[entry] & PMP_CFG_L != 0 || (entry + 1 < 16 && self.pmpcfg[entry + 1] & (
        PMP_CFG_L | PMP_CFG_A_MASK) == (PMP_CFG_L | PMP_CFG_A_TOR)) {
            return;
        }
        let kept: u64 = value & PMP_ADDR_MASK;
        if self.pmpaddr[entry] != kept {
            self.pmpaddr[entry] = kept;
            self.flush_tlb();
        }
    }

    fn csr_barred(&self, csr: u16, will_write: bool) -> (r: bool)
        ensures
            r == self@.control.csr_barred(csr, will_write),
    {
        let privilege: Privilege = self.control.privilege;
        (csr & 0xc00 == 0xc00 && will_write) || privilege.level() < ((csr >> 8) & 3) as u64 || (csr
            == CSR_SATP && privilege == Privilege::Supervisor && self.control.mstatus & MSTATUS_TVM
            != 0) || (csr == CSR_STIMER && privilege != Privilege::Machine && (
        self.control.menvcfg & MENVCFG_STCE == 0 || self.control.mcounteren & 2 == 0))
    }

    #[verifier::rlimit(40)]
    pub fn csr_read(&self, csr: u16, will_write: bool) -> (r: Result<u64, CsrError>)
        ensures
            r == self@.csr_value(csr, will_write),
    {
        let c = &self.control;
        if self.csr_barred(csr, will_write) {
            Err(CsrError::IllegalAccess)
        } else if csr == CSR_FFLAGS && self.fp_enabled() {
            Ok(c.fflags as u64)
        } else if csr == CSR_FRM && self.fp_enabled() {
            Ok(c.frm as u64)
        } else if csr == CSR_FCSR && self.fp_enabled() {
            Ok((c.fflags | (c.frm << 5)) as u64)
        } else if csr == CSR_CYCLE && self.counter_enabled(1) {
            Ok(c.cycle)
        } else if csr == CSR_TIME && self.counter_enabled(2) {
            match c.time {
                Some(time) => Ok(time),
                None => Err(CsrError::IllegalAccess),
            }
        } else if csr == CSR_INSTRET && self.counter_enabled(4) {
            Ok(c.instret)
        } else if csr == CSR_SSTATUS {
            Ok(self.get_mstatus(SSTATUS_MASK | MSTATUS_UXL))
        } else if csr == CSR_SIE {
            Ok((c.mie & c.mideleg) as u64)
        } else if csr == CSR_STVEC {
            Ok(c.stvec)
        } else if csr == CSR_SCOUNTEREN {
            Ok(c.scounteren as u64)
        } else if csr == CSR_SENVCFG {
            Ok(c.senvcfg)
        } else if csr == CSR_SSCRATCH {
            Ok(c.sscratch)
        } else if csr == CSR_SEPC {
            Ok(c.sepc)
        } else if csr == CSR_SCAUSE {
            Ok(c.scause)
        } else if csr == CSR_STVAL {
            Ok(c.stval)
        } else if csr == CSR_SIP {
            Ok((c.mip & c.mideleg) as u64)
        } else if csr == CSR_STIMER {
            Ok(c.stimer)
        } else if csr == CSR_SATP {
            Ok(c.satp)
        } else if csr == CSR_MSTATUS {
            Ok(self.get_mstatus(u64::MAX))
        } else if csr == CSR_MISA {
            Ok(c.misa | MISA_MXL)
        } else if csr == CSR_MEDELEG {
            Ok(c.medeleg as u64)
        } else if csr == CSR_MIDELEG {
            Ok(c.mideleg as u64)
        } else if csr == CSR_MIE {
            Ok(c.mie as u64)
        } else if csr == CSR_MTVEC {
            Ok(c.mtvec)
        } else if csr == CSR_MCOUNTEREN {
            Ok(c.mcounteren as u64)
        } else if csr == CSR_MENVCFG {
            Ok(c.menvcfg)
        } else if csr == CSR_MCOUNTINHIBIT {
            Ok(0)
        } else if csr == CSR_PMPCFG0 {
            Ok(self.pmpcfg_value(0))
        } else if csr == CSR_PMPCFG2 {
            Ok(self.pmpcfg_value(8))
        } else if csr == CSR_MSCRATCH {
            Ok(c.mscratch)
        } else if csr == CSR_MEPC {
            Ok(c.mepc)
        } else if csr == CSR_MCAUSE {
            Ok(c.mcause)
        } else if csr == CSR_MTVAL {
            Ok(c.mtval)
        } else if csr == CSR_MIP {
            Ok(c.mip as u64)
        } else if csr == CSR_MCYCLE {
            Ok(c.cycle)
        } else if csr == CSR_MINSTRET {
            Ok(c.instret)
        } else if CSR_PMPADDR0 <= csr && csr <= CSR_PMPADDR15 {
            Ok(self.pmpaddr[(csr - CSR_PMPADDR0) as usize])
        } else if csr == CSR_MHARTID {
            Ok(c.mhartid)
        } else if 0xf11 <= csr && csr <= 0xf15 {
            Ok(0)
        } else {
            Err(CsrError::IllegalAccess)
        }
    }

    fn set_sip(&mut self, mask: u32, low: u32)
        ensures
            final(self)@ == old(self)@.with_control(
                Control {
                    mip: (old(self)@.control.mip & !mask) | (low & mask),
                    ..old(self)@.control
                },
            ),
    {
        self.control.mip = (self.control.mip & !mask) | (low & mask);
    }

    fn set_satp(&mut self, value: u64)
        ensures
            final(self)@ == old(self)@.csr_written(CSR_SATP, value),
    {
        let requested: u64 = value >> 60;
        let mode: u64 = if requested == 0 || requested == 8 {
            requested
        } else {
            self.control.satp >> 60
        };
        self.control.satp = (value & 0xfff_ffff_ffff) | (mode << 60);
        self.flush_tlb();
    }

    fn set_menvcfg(&mut self, value: u64)
        ensures
            final(self)@ == old(self)@.csr_written(CSR_MENVCFG, value),
    {
        let before: u64 = self.control.menvcfg;
        let menvcfg: u64 = valid_envcfg(value) | (value & (MENVCFG_ADUE | MENVCFG_PBMTE
            | MENVCFG_STCE));
        self.control.menvcfg = menvcfg;
        if (before ^ menvcfg) & (MENVCFG_ADUE | MENVCFG_PBMTE) != 0 {
            self.flush_tlb();
        }
        if menvcfg & MENVCFG_STCE == 0 {
            self.control.mip = self.control.mip & !MIP_STIP;
        } else {
            match self.control.time {
                Some(time) => self.set_time(time),
                None => {},
            }
        }
    }

    /// Marks the floating-point state as changed.
    pub fn mark_fp_dirty(&mut self)
        ensures
            final(self)@ == old(self)@.with_control(
                Control {
                    mstatus: old(self)@.control.mstatus | MSTATUS_FS,
                    ..old(self)@.control
                },
            ),
    {
        self.control.mstatus = self.control.mstatus | MSTATUS_FS;
    }

    pub fn require_fp(&self) -> (r: Result<(), CsrError>)
        ensures
            r == (if self@.control.fp_on() {
                Ok::<(), CsrError>(())
            } else {
                Err(CsrError::IllegalAccess)
            }),
    {
        if self.fp_enabled() {
            Ok(())
        } else {
            Err(CsrError::IllegalAccess)
        }
    }

    #[verifier::rlimit(60)]
    pub fn csr_write(&mut self, csr: u16, value: u64) -> (r: Result<(), CsrError>)
        ensures
            r == (if old(self)@.csr_writable(csr) {
                Ok::<(), CsrError>(())
            } else {
                Err(CsrError::IllegalAccess)
            }),
            final(self)@ == old(self)@.csr_written(csr, value),
    {
        let low: u32 = value as u32;
        let keep_timer: bool = self.control.menvcfg & MENVCFG_STCE != 0;
        if csr == CSR_FFLAGS || csr == CSR_FRM || csr == CSR_FCSR {
            match self.require_fp() {
                Ok(()) => {},
                Err(error) => {
                    return Err(error);
                },
            }
            if csr == CSR_FFLAGS {
                self.control.fflags = (value % 32) as u8;
            } else if csr == CSR_FRM {
                self.control.frm = (value % 8) as u8;
            } else {
                self.control.fflags = (value % 32) as u8;
                self.control.frm = (value / 32 % 8) as u8;
            }
            self.mark_fp_dirty();
        } else if csr == CSR_SSTATUS {
            let status: u64 = (self.control.mstatus & !SSTATUS_MASK) | (value & SSTATUS_MASK);
            self.set_mstatus(status);
        } else if csr == CSR_SIE {
            self.control.mie = (self.control.mie & !self.control.mideleg) | (low
                & self.control.mideleg);
        } else if csr == CSR_STVEC {
            self.control.stvec = value & !3;
        } else if csr == CSR_SCOUNTEREN {
            self.control.scounteren = low & COUNTEREN_MASK;
        } else if csr == CSR_SENVCFG {
            self.control.senvcfg = valid_envcfg(value);
        } else if csr == CSR_SSCRATCH {
            self.control.sscratch = value;
        } else if csr == CSR_SEPC {
            self.control.sepc = value & !1;
        } else if csr == CSR_SCAUSE {
            self.control.scause = value;
        } else if csr == CSR_STVAL {
            self.control.stval = value;
        } else if csr == CSR_SIP {
            let mask: u32 = if keep_timer {
                self.control.mideleg & !MIP_STIP
            } else {
                self.control.mideleg
            };
            self.set_sip(mask, low);
        } else if csr == CSR_STIMER {
            self.control.stimer = value;
            match self.control.time {
                Some(time) => self.set_time(time),
                None => {},
            }
        } else if csr == CSR_SATP {
            self.set_satp(value);
        } else if csr == CSR_MSTATUS {
            self.set_mstatus(value);
        } else if csr == CSR_MISA || csr == CSR_MCOUNTINHIBIT {
        } else if csr == CSR_MEDELEG {
            self.control.medeleg = low & 0xffff;
        } else if csr == CSR_MIDELEG {
            self.control.mideleg = low & (MIP_SSIP | MIP_STIP | MIP_SEIP);
        } else if csr == CSR_MIE {
            let mask: u32 = MIP_MSIP | MIP_MTIP | MIP_SSIP | MIP_STIP | MIP_SEIP;
            self.control.mie = (self.control.mie & !mask) | (low & mask);
        } else if csr == CSR_MTVEC {
            self.control.mtvec = value & !3;
        } else if csr == CSR_MCOUNTEREN {
            self.control.mcounteren = low & COUNTEREN_MASK;
        } else if csr == CSR_MENVCFG {
            self.set_menvcfg(value);
        } else if csr == CSR_PMPCFG0 {
            self.set_pmpcfg(0, value);
        } else if csr == CSR_PMPCFG2 {
            self.set_pmpcfg(8, value);
        } else if csr == CSR_MSCRATCH {
            self.control.mscratch = value;
        } else if csr == CSR_MEPC {
            self.control.mepc = value & !1;
        } else if csr == CSR_MCAUSE {
            self.control.mcause = value;
        } else if csr == CSR_MTVAL {
            self.control.mtval = value;
        } else if csr == CSR_MIP {
            let mask: u32 = if keep_timer {
                (MIP_SSIP | MIP_STIP) & !MIP_STIP
            } else {
                MIP_SSIP | MIP_STIP
            };
            self.set_sip(mask, low);
        } else if csr == CSR_MCYCLE {
            self.control.cycle = value;
        } else if csr == CSR_MINSTRET {
            self.control.instret = value;
        } else if CSR_PMPADDR0 <= csr && csr <= CSR_PMPADDR15 {
            self.set_pmpaddr((csr - CSR_PMPADDR0) as usize, value);
        } else {
            return Err(CsrError::IllegalAccess);
        }
        Ok(())
    }
}

} // verus!
