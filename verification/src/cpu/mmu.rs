//! Address translation, physical memory protection, and memory access.

use vstd::prelude::*;
use crate::bytes;
use crate::cpu::alu::{low_mask, trailing_zeros};
use crate::cpu::{
    Cpu, CpuBus, CpuModel, Exception, Privilege, TlbEntry, Trap, MENVCFG_ADUE, MENVCFG_PBMTE,
    MSTATUS_MPP, MSTATUS_MPRV, MSTATUS_MXR, MSTATUS_SUM, PMP_CFG_A_MASK, PMP_CFG_A_NA4,
    PMP_CFG_A_TOR, PMP_CFG_L, PMP_CFG_R, PMP_CFG_W, PMP_CFG_X,
};
use crate::memory::{AccessWidth, ArenaOffset, GuestAddress};

verus! {

pub const SATP_MODE_SV39: u64 = 8;
pub const PTE_VALID: u64 = 0x1;
pub const PTE_USER: u64 = 0x10;
pub const PTE_ACCESSED: u64 = 0x40;
pub const PTE_DIRTY: u64 = 0x80;
pub const PTE_PPN_MASK: u64 = 0xfff_ffff_ffff;
pub const PTE_PBMT_MASK: u64 = 0x6000_0000_0000_0000;
pub const PTE_NAPOT: u64 = 0x8000_0000_0000_0000;
pub const PTE_HIGH_RESERVED: u64 = 0x1fc0_0000_0000_0000;
pub const PTE_NONLEAF_RESERVED: u64 = 0xe000_0000_0000_00d0;
/// The bits of an address that a 64 KiB page takes from the virtual address.
pub const NAPOT_BITS: u64 = 0xf000;
pub const CACHE_BLOCK: u64 = 64;

#[derive(Clone, Copy, Debug, PartialEq, Eq, Structural)]
pub enum Access {
    Read,
    Write,
    Execute,
}

impl Access {
    /// The permission bit that an access needs in a page table entry.
    pub open spec fn needs(self) -> u64 {
        match self {
            Access::Read => 1,
            Access::Write => 2,
            Access::Execute => 4,
        }
    }

    fn permission(self) -> (r: u64)
        ensures
            r == self.needs(),
    {
        match self {
            Access::Read => 1,
            Access::Write => 2,
            Access::Execute => 4,
        }
    }

    /// The permission bit that an access needs in a PMP entry.
    pub open spec fn pmp_needs(self) -> u8 {
        match self {
            Access::Read => PMP_CFG_R,
            Access::Write => PMP_CFG_W,
            Access::Execute => PMP_CFG_X,
        }
    }
}

#[derive(Clone, Copy, Debug, PartialEq, Eq, Structural)]
pub enum TranslationFault {
    Page,
    Access,
}

/// The trap of a failed access.
pub open spec fn fault_trap(access: Access, address: u64, fault: TranslationFault) -> Trap {
    Trap {
        exception: match (access, fault) {
            (Access::Execute, TranslationFault::Page) => Exception::InstructionPageFault,
            (Access::Execute, TranslationFault::Access) => Exception::InstructionAccessFault,
            (Access::Read, TranslationFault::Page) => Exception::LoadPageFault,
            (Access::Read, TranslationFault::Access) => Exception::LoadAccessFault,
            (Access::Write, TranslationFault::Page) => Exception::StorePageFault,
            (Access::Write, TranslationFault::Access) => Exception::StoreAccessFault,
        },
        value: address,
    }
}

fn translation_trap(access: Access, address: u64, fault: TranslationFault) -> (r: Trap)
    ensures
        r == fault_trap(access, address, fault),
{
    let exception: Exception = match (access, fault) {
        (Access::Execute, TranslationFault::Page) => Exception::InstructionPageFault,
        (Access::Execute, TranslationFault::Access) => Exception::InstructionAccessFault,
        (Access::Read, TranslationFault::Page) => Exception::LoadPageFault,
        (Access::Read, TranslationFault::Access) => Exception::LoadAccessFault,
        (Access::Write, TranslationFault::Page) => Exception::StorePageFault,
        (Access::Write, TranslationFault::Access) => Exception::StoreAccessFault,
    };
    Trap { exception, value: address }
}

fn access_trap(access: Access, address: u64) -> (r: Trap)
    ensures
        r == fault_trap(access, address, TranslationFault::Access),
{
    translation_trap(access, address, TranslationFault::Access)
}

/// The page that an address lies in.
pub open spec fn page_of(address: u64) -> u64 {
    (address - address % 4096) as u64
}

/// The cache line that a page uses.
pub open spec fn tlb_index(address: u64) -> int {
    (address / 4096 % 256) as int
}

/// The value stored in the arena, if it lies inside.
pub open spec fn arena_value(arena: Seq<u8>, offset: int, width: AccessWidth) -> Option<u64> {
    if offset + width.size() <= arena.len() {
        Some(bytes::le_value(arena.subrange(offset, (offset + width.size()) as int)) as u64)
    } else {
        None
    }
}

pub fn read_arena(arena: &[u8], offset: u64, width: AccessWidth) -> (r: Option<u64>)
    requires
        offset <= 0x1_0000_0000_0000,
    ensures
        r == arena_value(arena@, offset as int, width),
{
    let len: usize = width.bytes();
    if offset + len as u64 <= arena.len() as u64 {
        proof {
            bytes::lemma_le_value_bound(arena@.subrange(offset as int, offset + len));
            bytes::lemma_pow256();
            bytes::lemma_pow256_monotonic(len as nat, 8);
        }
        Some(bytes::load_le(arena, offset as usize, len))
    } else {
        None
    }
}

pub fn write_arena(arena: &mut [u8], offset: u64, width: AccessWidth, value: u64) -> (r: Option<()>)
    requires
        offset <= 0x1_0000_0000_0000,
    ensures
        r == (if offset + width.size() <= old(arena)@.len() {
            Some(())
        } else {
            None
        }),
        final(arena)@ == (if r is Some {
            bytes::spliced(
                old(arena)@,
                offset as int,
                bytes::le_bytes(value as nat, width.size()),
            )
        } else {
            old(arena)@
        }),
{
    let len: usize = width.bytes();
    if offset + len as u64 <= arena.len() as u64 {
        let data: Vec<u8> = bytes::to_le(value, len);
        bytes::splice_slice(arena, offset as usize, data.as_slice());
        Some(())
    } else {
        None
    }
}

impl CpuModel {
    /// The privilege with which memory is accessed.
    pub open spec fn access_privilege(self, access: Access) -> Privilege {
        let c = self.control;
        if !(access is Execute) && c.mstatus & MSTATUS_MPRV != 0 {
            match (c.mstatus & MSTATUS_MPP) >> 11 {
                0 => Privilege::User,
                1 => Privilege::Supervisor,
                _ => Privilege::Machine,
            }
        } else {
            c.privilege
        }
    }

    /// The range that a PMP entry covers.
    pub open spec fn pmp_range(self, index: int) -> (u64, u64) {
        let mode = self.pmpcfg[index] & PMP_CFG_A_MASK;
        let encoded = self.pmpaddr[index];
        if mode == PMP_CFG_A_TOR {
            (
                if index == 0 {
                    0
                } else {
                    self.pmpaddr[index - 1] << 2
                },
                encoded << 2,
            )
        } else if mode == PMP_CFG_A_NA4 {
            (encoded << 2, (encoded << 2).saturating_add(4))
        } else {
            let zeros = crate::cpu::alu::low_zeros_of(!encoded, 64);
            let lower = (encoded & !crate::cpu::alu::low_ones(zeros)) << 2;
            (
                lower,
                lower.saturating_add(
                    if zeros + 3 >= 64 {
                        u64::MAX
                    } else {
                        1u64 << ((zeros + 3) as u64)
                    },
                ),
            )
        }
    }

    /// Whether the PMP entries from `index` on allow an access to the bytes
    /// from `address` up to `end`. The first entry that matches decides.
    pub open spec fn pmp_allows_from(
        self,
        index: nat,
        address: u64,
        end: u64,
        access: Access,
        privilege: Privilege,
    ) -> bool
        decreases 16 - index,
    {
        if index >= 16 {
            privilege is Machine
        } else {
            let config = self.pmpcfg[index as int];
            let (lower, upper) = self.pmp_range(index as int);
            if config & PMP_CFG_A_MASK == 0 || address >= upper || end <= lower {
                self.pmp_allows_from(index + 1, address, end, access, privilege)
            } else if address < lower || end > upper {
                false
            } else {
                (privilege is Machine && config & PMP_CFG_L == 0) || config & access.pmp_needs()
                    != 0
            }
        }
    }

    pub open spec fn pmp_allows(
        self,
        address: u64,
        len: nat,
        access: Access,
        privilege: Privilege,
    ) -> bool {
        address + len <= u64::MAX && self.pmp_allows_from(
            0,
            address,
            (address + len) as u64,
            access,
            privilege,
        )
    }

    pub open spec fn read_pte<B: CpuBus>(self, m: B::Model, address: u64) -> (
        Result<u64, TranslationFault>,
        B::Model,
    ) {
        if !self.pmp_allows(address, 8, Access::Read, Privilege::Supervisor) {
            (Err(TranslationFault::Access), m)
        } else {
            match B::reads(m, address, AccessWidth::DoubleWord) {
                (Ok(value), n) => (Ok(value), n),
                (Err(_), n) => (Err(TranslationFault::Access), n),
            }
        }
    }

    pub open spec fn write_pte<B: CpuBus>(self, m: B::Model, address: u64, value: u64) -> (
        Result<(), TranslationFault>,
        B::Model,
    ) {
        if !self.pmp_allows(address, 8, Access::Write, Privilege::Supervisor) {
            (Err(TranslationFault::Access), m)
        } else {
            match B::writes(m, address, AccessWidth::DoubleWord, value) {
                (Ok(_), n) => (Ok(()), n),
                (Err(_), n) => (Err(TranslationFault::Access), n),
            }
        }
    }

    /// Whether an entry is no page table entry of any kind.
    pub open spec fn pte_invalid(self, pte: u64) -> bool {
        pte & PTE_VALID == 0 || pte & PTE_HIGH_RESERVED != 0
    }

    /// The physical page base of a leaf entry, or `None` when the leaf is
    /// malformed at this level.
    pub open spec fn leaf_base(self, pte: u64, address: u64, level: nat) -> Option<u64> {
        let permissions = (pte >> 1) & 7;
        let pbmt = pte & PTE_PBMT_MASK;
        let base = ((pte >> 10) & PTE_PPN_MASK) << 12;
        let napot = pte & PTE_NAPOT != 0;
        let physical = if napot {
            (base & !NAPOT_BITS) | (address & NAPOT_BITS)
        } else {
            base
        };
        if permissions == 2 || permissions == 6 {
            None
        } else if pbmt == PTE_PBMT_MASK || (pbmt != 0 && self.control.menvcfg & MENVCFG_PBMTE == 0) {
            None
        } else if napot && (level != 0 || (base >> 12) & 0xf != 8) {
            None
        } else if physical & crate::cpu::alu::low_ones((12 + 9 * level) as u64) != 0 {
            None
        } else {
            Some(physical)
        }
    }

    /// Whether a leaf entry permits an access.
    pub open spec fn leaf_permits(self, pte: u64, access: Access, privilege: Privilege) -> bool {
        let user_page = pte & PTE_USER != 0;
        let stated = (pte >> 1) & 7;
        let permissions = if access is Read && self.control.mstatus & MSTATUS_MXR != 0 {
            stated | (stated >> 2)
        } else {
            stated
        };
        &&& privilege is Supervisor && user_page ==> !(access is Execute) && self.control.mstatus
            & MSTATUS_SUM != 0
        &&& privilege is User ==> user_page
        &&& permissions & access.needs() != 0
    }

    /// Walks the page tables from a table at `level`.
    pub open spec fn walk_from<B: CpuBus>(
        self,
        m: B::Model,
        address: u64,
        access: Access,
        privilege: Privilege,
        level: nat,
        table: u64,
    ) -> (Result<u64, TranslationFault>, B::Model)
        decreases level,
    {
        let shift = (12 + 9 * level) as u64;
        let entry = table.wrapping_add((((address >> shift) % 512) * 8) as u64);
        let (read, n) = self.read_pte::<B>(m, entry);
        match read {
            Err(fault) => (Err(fault), n),
            Ok(pte) => {
                if self.pte_invalid(pte) {
                    (Err(TranslationFault::Page), n)
                } else if (pte >> 1) & 7 == 0 {
                    if pte & PTE_NONLEAF_RESERVED != 0 || level == 0 {
                        (Err(TranslationFault::Page), n)
                    } else {
                        self.walk_from::<B>(
                            n,
                            address,
                            access,
                            privilege,
                            (level - 1) as nat,
                            ((pte >> 10) & PTE_PPN_MASK) << 12,
                        )
                    }
                } else {
                    match self.leaf_base(pte, address, level) {
                        None => (Err(TranslationFault::Page), n),
                        Some(physical) => {
                            let mask = crate::cpu::alu::low_ones(shift);
                            let place = (address & mask) | (physical & !mask);
                            let stale = pte & PTE_ACCESSED == 0 || (access is Write && pte
                                & PTE_DIRTY == 0);
                            if !self.leaf_permits(pte, access, privilege) {
                                (Err(TranslationFault::Page), n)
                            } else if !stale {
                                (Ok(place), n)
                            } else if self.control.menvcfg & MENVCFG_ADUE == 0 {
                                (Err(TranslationFault::Page), n)
                            } else {
                                let marked = if access is Write {
                                    (pte | PTE_ACCESSED) | PTE_DIRTY
                                } else {
                                    pte | PTE_ACCESSED
                                };
                                match self.write_pte::<B>(n, entry, marked) {
                                    (Ok(_), o) => (Ok(place), o),
                                    (Err(fault), o) => (Err(fault), o),
                                }
                            }
                        },
                    }
                }
            },
        }
    }

    /// Translates a virtual address under Sv39. Bits 63 to 38 must agree.
    pub open spec fn walk_sv39<B: CpuBus>(
        self,
        m: B::Model,
        address: u64,
        access: Access,
        privilege: Privilege,
    ) -> (Result<u64, TranslationFault>, B::Model) {
        let high = address >> 38;
        if high != 0 && high != 0x3ff_ffff {
            (Err(TranslationFault::Page), m)
        } else {
            self.walk_from::<B>(
                m,
                address,
                access,
                privilege,
                2,
                (self.control.satp & PTE_PPN_MASK) << 12,
            )
        }
    }

    /// The physical address of an access of `len` bytes.
    pub open spec fn translate<B: CpuBus>(self, m: B::Model, address: u64, len: nat, access: Access) -> (
        Result<u64, TranslationFault>,
        B::Model,
    ) {
        let privilege = self.access_privilege(access);
        let (walked, n) = if privilege is Machine || self.control.satp >> 60 != SATP_MODE_SV39 {
            (Ok(address), m)
        } else {
            self.walk_sv39::<B>(m, address, access, privilege)
        };
        match walked {
            Err(fault) => (Err(fault), n),
            Ok(physical) => if self.pmp_allows(physical, len, access, privilege) {
                (Ok(physical), n)
            } else {
                (Err(TranslationFault::Access), n)
            },
        }
    }

    pub open spec fn tlb(self, access: Access) -> Seq<TlbEntry> {
        match access {
            Access::Read => self.tlb_read,
            Access::Write => self.tlb_write,
            Access::Execute => self.tlb_execute,
        }
    }

    pub open spec fn with_tlb_entry(self, access: Access, index: int, entry: TlbEntry) -> CpuModel {
        match access {
            Access::Read => CpuModel { tlb_read: self.tlb_read.update(index, entry), ..self },
            Access::Write => CpuModel { tlb_write: self.tlb_write.update(index, entry), ..self },
            Access::Execute => CpuModel {
                tlb_execute: self.tlb_execute.update(index, entry),
                ..self
            },
        }
    }

    /// Whether a translation of the page of an address is cached.
    pub open spec fn cached(self, access: Access, address: u64) -> bool {
        self.tlb(access)[tlb_index(address)].virtual_page == page_of(address)
    }

    /// Where a cached translation places an address in the arena.
    pub open spec fn cached_offset(self, access: Access, address: u64) -> int {
        self.tlb(access)[tlb_index(address)].arena_page.0 + address % 4096
    }

    /// Caches the translation of a page that is RAM as a whole and that PMP
    /// lets through as a whole.
    pub open spec fn filled<B: CpuBus>(
        self,
        m: B::Model,
        address: u64,
        physical: u64,
        access: Access,
    ) -> (CpuModel, B::Model) {
        if !self.pmp_allows(page_of(physical), 4096, access, self.access_privilege(access)) {
            (self, m)
        } else {
            match B::resolves(m, page_of(physical), 4096, access is Write) {
                (Ok(arena_page), n) => (
                    self.with_tlb_entry(
                        access,
                        tlb_index(address),
                        TlbEntry { virtual_page: page_of(address), arena_page },
                    ),
                    n,
                ),
                (Err(_), n) => (self, n),
            }
        }
    }

    /// A load of a naturally aligned value.
    pub open spec fn load_aligned<B: CpuBus>(
        self,
        m: B::Model,
        address: u64,
        width: AccessWidth,
        access: Access,
    ) -> (Result<u64, Trap>, CpuModel, B::Model) {
        if self.cached(access, address) {
            match arena_value(B::arena_of(m), self.cached_offset(access, address), width) {
                Some(value) => (Ok(value), self, m),
                None => (Err(fault_trap(access, address, TranslationFault::Access)), self, m),
            }
        } else {
            match self.translate::<B>(m, address, width.size(), access) {
                (Err(fault), n) => (Err(fault_trap(access, address, fault)), self, n),
                (Ok(physical), n) => match B::reads(n, physical, width) {
                    (Err(_), o) => (
                        Err(fault_trap(access, address, TranslationFault::Access)),
                        self,
                        o,
                    ),
                    (Ok(value), o) => {
                        let (cpu, p) = self.filled::<B>(o, address, physical, access);
                        (Ok(value), cpu, p)
                    },
                },
            }
        }
    }

    /// The bytes of a misaligned load from byte `index` on, put together with
    /// what was loaded before.
    pub open spec fn load_pieces<B: CpuBus>(
        self,
        m: B::Model,
        address: u64,
        len: nat,
        access: Access,
        index: nat,
        before: u64,
    ) -> (Result<u64, Trap>, CpuModel, B::Model)
        decreases len - index,
    {
        if index >= len {
            (Ok(before), self, m)
        } else {
            let (r, cpu, n) = self.load_aligned::<B>(
                m,
                address.wrapping_add(index as u64),
                AccessWidth::Byte,
                access,
            );
            match r {
                Ok(value) => cpu.load_pieces::<B>(
                    n,
                    address,
                    len,
                    access,
                    index + 1,
                    before | (value << ((index * 8) as u64)),
                ),
                Err(trap) => (Err(trap), cpu, n),
            }
        }
    }

    /// A load. A misaligned value is loaded byte by byte.
    pub open spec fn load<B: CpuBus>(
        self,
        m: B::Model,
        address: u64,
        width: AccessWidth,
        access: Access,
    ) -> (Result<u64, Trap>, CpuModel, B::Model) {
        if address as nat % width.size() == 0 {
            self.load_aligned::<B>(m, address, width, access)
        } else {
            self.load_pieces::<B>(m, address, width.size(), access, 0, 0)
        }
    }

    /// A store of a naturally aligned value.
    pub open spec fn store_aligned<B: CpuBus>(
        self,
        m: B::Model,
        address: u64,
        width: AccessWidth,
        value: u64,
    ) -> (Result<(), Trap>, CpuModel, B::Model) {
        let access = Access::Write;
        let refused = fault_trap(access, address, TranslationFault::Access);
        if self.cached(access, address) {
            let offset = self.cached_offset(access, address);
            let arena = B::arena_of(m);
            if offset + width.size() <= arena.len() {
                let data = bytes::le_bytes(value as nat, width.size());
                (Ok(()), self, B::with_arena(m, bytes::spliced(arena, offset, data)))
            } else {
                (Err(refused), self, B::with_arena(m, arena))
            }
        } else {
            match self.translate::<B>(m, address, width.size(), access) {
                (Err(fault), n) => (Err(fault_trap(access, address, fault)), self, n),
                (Ok(physical), n) => match B::writes(n, physical, width, value) {
                    (Err(_), o) => (Err(refused), self, o),
                    (Ok(_), o) => {
                        let (cpu, p) = self.filled::<B>(o, address, physical, access);
                        (Ok(()), cpu, p)
                    },
                },
            }
        }
    }

    pub open spec fn store_pieces<B: CpuBus>(
        self,
        m: B::Model,
        address: u64,
        len: nat,
        value: u64,
        index: nat,
    ) -> (Result<(), Trap>, CpuModel, B::Model)
        decreases len - index,
    {
        if index >= len {
            (Ok(()), self, m)
        } else {
            let (r, cpu, n) = self.store_aligned::<B>(
                m,
                address.wrapping_add(index as u64),
                AccessWidth::Byte,
                value >> ((index * 8) as u64),
            );
            match r {
                Ok(_) => cpu.store_pieces::<B>(n, address, len, value, index + 1),
                Err(trap) => (Err(trap), cpu, n),
            }
        }
    }

    /// A store. A misaligned value is stored byte by byte; the bytes before
    /// one that fails stay written.
    pub open spec fn store<B: CpuBus>(
        self,
        m: B::Model,
        address: u64,
        width: AccessWidth,
        value: u64,
    ) -> (Result<(), Trap>, CpuModel, B::Model) {
        if address as nat % width.size() == 0 {
            self.store_aligned::<B>(m, address, width, value)
        } else {
            self.store_pieces::<B>(m, address, width.size(), value, 0)
        }
    }

    /// Checks that a store could be made, without making it.
    pub open spec fn check_store<B: CpuBus>(self, m: B::Model, address: u64, width: AccessWidth) -> (
        Result<(), Trap>,
        CpuModel,
        B::Model,
    ) {
        if self.cached(Access::Write, address) {
            (Ok(()), self, m)
        } else {
            match self.translate::<B>(m, address, width.size(), Access::Write) {
                (Ok(_), n) => (Ok(()), self, n),
                (Err(fault), n) => (Err(fault_trap(Access::Write, address, fault)), self, n),
            }
        }
    }

    /// Writes zeros to the cache block of an address, or checks that it could
    /// be written.
    pub open spec fn cache_block<B: CpuBus>(self, m: B::Model, address: u64, zero: bool) -> (
        Result<(), Trap>,
        CpuModel,
        B::Model,
    ) {
        let block = (address - address % 64) as u64;
        if zero {
            self.zero_words::<B>(m, block, 0)
        } else {
            self.check_store::<B>(m, block, AccessWidth::DoubleWord)
        }
    }

    pub open spec fn zero_words<B: CpuBus>(self, m: B::Model, block: u64, index: nat) -> (
        Result<(), Trap>,
        CpuModel,
        B::Model,
    )
        decreases 8 - index,
    {
        if index >= 8 {
            (Ok(()), self, m)
        } else {
            let (r, cpu, n) = self.store_aligned::<B>(
                m,
                block.wrapping_add((index * 8) as u64),
                AccessWidth::DoubleWord,
                0,
            );
            match r {
                Ok(_) => cpu.zero_words::<B>(n, block, index + 1),
                Err(trap) => (Err(trap), cpu, n),
            }
        }
    }

    /// The cached write translations after a part of the arena was given away.
    pub open spec fn without_writes(self, start: ArenaOffset, len: u32) -> CpuModel {
        CpuModel {
            tlb_write: Seq::new(
                self.tlb_write.len(),
                |i: int|
                    if start.0 <= self.tlb_write[i].arena_page.0 < start.0 + len {
                        crate::cpu::empty_entry()
                    } else {
                        self.tlb_write[i]
                    },
            ),
            ..self
        }
    }
}

impl Cpu {
    fn effective_privilege(&self, access: Access) -> (r: Privilege)
        ensures
            r == self@.access_privilege(access),
    {
        if access != Access::Execute && self.control.mstatus & MSTATUS_MPRV != 0 {
            return match (self.control.mstatus & MSTATUS_MPP) >> 11 {
                0 => Privilege::User,
                1 => Privilege::Supervisor,
                _ => Privilege::Machine,
            };
        }
        self.control.privilege
    }

    fn pmp_bounds(&self, index: usize) -> (r: (u64, u64))
        requires
            index < 16,
        ensures
            r == self@.pmp_range(index as int),
    {
        let mode: u8 = self.pmpcfg[index] & PMP_CFG_A_MASK;
        let encoded: u64 = self.pmpaddr[index];
        if mode == PMP_CFG_A_TOR {
            (
                if index == 0 {
                    0
                } else {
                    self.pmpaddr[index - 1] << 2
                },
                encoded << 2,
            )
        } else if mode == PMP_CFG_A_NA4 {
            let lower: u64 = encoded << 2;
            (lower, lower.saturating_add(4))
        } else {
            let zeros: u64 = trailing_zeros(!encoded, 64);
            let lower: u64 = (encoded & !low_mask(zeros)) << 2;
            let size: u64 = if zeros + 3 >= 64 {
                u64::MAX
            } else {
                1u64 << (zeros + 3)
            };
            (lower, lower.saturating_add(size))
        }
    }

    pub fn pmp_access_ok(&self, address: u64, len: u64, access: Access, privilege: Privilege) -> (r:
        bool)
        ensures
            r == self@.pmp_allows(address, len as nat, access, privilege),
    {
        if len > u64::MAX - address {
            return false;
        }
        let end: u64 = address + len;
        let mut index: usize = 0;
        while index < 16
            invariant
                index <= 16,
                self@.pmp_allows_from(0, address, end, access, privilege)
                    == self@.pmp_allows_from(index as nat, address, end, access, privilege),
                end == address + len,
            decreases 16 - index,
        {
            let config: u8 = self.pmpcfg[index];
            let (lower, upper): (u64, u64) = self.pmp_bounds(index);
            if config & PMP_CFG_A_MASK == 0 || address >= upper || end <= lower {
                index = index + 1;
            } else if address < lower || end > upper {
                return false;
            } else {
                let needed: u8 = match access {
                    Access::Read => PMP_CFG_R,
                    Access::Write => PMP_CFG_W,
                    Access::Execute => PMP_CFG_X,
                };
                return (privilege == Privilege::Machine && config & PMP_CFG_L == 0) || config
                    & needed != 0;
            }
        }
        privilege == Privilege::Machine
    }

    fn read_pte<B: CpuBus>(&self, bus: &mut B, address: u64) -> (r: Result<u64, TranslationFault>)
        requires
            B::valid(old(bus).model()),
        ensures
            (r, final(bus).model()) == self@.read_pte::<B>(old(bus).model(), address),
            B::valid(final(bus).model()),
    {
        if !self.pmp_access_ok(address, 8, Access::Read, Privilege::Supervisor) {
            return Err(TranslationFault::Access);
        }
        match bus.read(GuestAddress(address), AccessWidth::DoubleWord) {
            Ok(value) => Ok(value),
            Err(_) => Err(TranslationFault::Access),
        }
    }

    fn write_pte<B: CpuBus>(&self, bus: &mut B, address: u64, value: u64) -> (r: Result<
        (),
        TranslationFault,
    >)
        requires
            B::valid(old(bus).model()),
        ensures
            (r, final(bus).model()) == self@.write_pte::<B>(old(bus).model(), address, value),
            B::valid(final(bus).model()),
    {
        if !self.pmp_access_ok(address, 8, Access::Write, Privilege::Supervisor) {
            return Err(TranslationFault::Access);
        }
        match bus.write(GuestAddress(address), AccessWidth::DoubleWord, value) {
            Ok(()) => Ok(()),
            Err(_) => Err(TranslationFault::Access),
        }
    }

    fn leaf(&self, pte: u64, address: u64, level: u64) -> (r: Option<u64>)
        requires
            level <= 2,
        ensures
            r == self@.leaf_base(pte, address, level as nat),
    {
        let permissions: u64 = (pte >> 1) & 7;
        let pbmt: u64 = pte & PTE_PBMT_MASK;
        let base: u64 = ((pte >> 10) & PTE_PPN_MASK) << 12;
        let napot: bool = pte & PTE_NAPOT != 0;
        let physical: u64 = if napot {
            (base & !NAPOT_BITS) | (address & NAPOT_BITS)
        } else {
            base
        };
        if permissions == 2 || permissions == 6 {
            None
        } else if pbmt == PTE_PBMT_MASK || (pbmt != 0 && self.control.menvcfg & MENVCFG_PBMTE == 0) {
            None
        } else if napot && (level != 0 || (base >> 12) & 0xf != 8) {
            None
        } else if physical & low_mask(12 + 9 * level) != 0 {
            None
        } else {
            Some(physical)
        }
    }

    fn permits(&self, pte: u64, access: Access, privilege: Privilege) -> (r: bool)
        ensures
            r == self@.leaf_permits(pte, access, privilege),
    {
        let user_page: bool = pte & PTE_USER != 0;
        if privilege == Privilege::Supervisor && user_page && (access == Access::Execute
            || self.control.mstatus & MSTATUS_SUM == 0) {
            return false;
        }
        if privilege == Privilege::User && !user_page {
            return false;
        }
        let stated: u64 = (pte >> 1) & 7;
        let permissions: u64 = if access == Access::Read && self.control.mstatus & MSTATUS_MXR
            != 0 {
            stated | (stated >> 2)
        } else {
            stated
        };
        permissions & access.permission() != 0
    }

    fn walk_level<B: CpuBus>(
        &self,
        bus: &mut B,
        address: u64,
        access: Access,
        privilege: Privilege,
        level: u64,
        table: u64,
    ) -> (r: Result<u64, TranslationFault>)
        requires
            B::valid(old(bus).model()),
            level <= 2,
        ensures
            (r, final(bus).model()) == self@.walk_from::<B>(
                old(bus).model(),
                address,
                access,
                privilege,
                level as nat,
                table,
            ),
            B::valid(final(bus).model()),
        decreases level,
    {
        let shift: u64 = 12 + 9 * level;
        let entry: u64 = table.wrapping_add(((address >> shift) % 512) * 8);
        let pte: u64 = match self.read_pte(bus, entry) {
            Ok(pte) => pte,
            Err(fault) => {
                return Err(fault);
            },
        };
        if pte & PTE_VALID == 0 || pte & PTE_HIGH_RESERVED != 0 {
            return Err(TranslationFault::Page);
        }
        if (pte >> 1) & 7 == 0 {
            if pte & PTE_NONLEAF_RESERVED != 0 || level == 0 {
                return Err(TranslationFault::Page);
            }
            return self.walk_level(
                bus,
                address,
                access,
                privilege,
                level - 1,
                ((pte >> 10) & PTE_PPN_MASK) << 12,
            );
        }
        let physical: u64 = match self.leaf(pte, address, level) {
            Some(physical) => physical,
            None => {
                return Err(TranslationFault::Page);
            },
        };
        if !self.permits(pte, access, privilege) {
            return Err(TranslationFault::Page);
        }
        let mask: u64 = low_mask(shift);
        let place: u64 = (address & mask) | (physical & !mask);
        let stale: bool = pte & PTE_ACCESSED == 0 || (access == Access::Write && pte & PTE_DIRTY
            == 0);
        if stale {
            if self.control.menvcfg & MENVCFG_ADUE == 0 {
                return Err(TranslationFault::Page);
            }
            let marked: u64 = if access == Access::Write {
                (pte | PTE_ACCESSED) | PTE_DIRTY
            } else {
                pte | PTE_ACCESSED
            };
            match self.write_pte(bus, entry, marked) {
                Ok(()) => {},
                Err(fault) => {
                    return Err(fault);
                },
            }
        }
        Ok(place)
    }

    pub fn walk_sv39<B: CpuBus>(
        &self,
        bus: &mut B,
        address: u64,
        access: Access,
        privilege: Privilege,
    ) -> (r: Result<u64, TranslationFault>)
        requires
            B::valid(old(bus).model()),
        ensures
            (r, final(bus).model()) == self@.walk_sv39::<B>(
                old(bus).model(),
                address,
                access,
                privilege,
            ),
            B::valid(final(bus).model()),
    {
        let high: u64 = address >> 38;
        if high != 0 && high != 0x3ff_ffff {
            return Err(TranslationFault::Page);
        }
        self.walk_level(
            bus,
            address,
            access,
            privilege,
            2,
            (self.control.satp & PTE_PPN_MASK) << 12,
        )
    }

    fn translate<B: CpuBus>(&self, bus: &mut B, address: u64, len: usize, access: Access) -> (r:
        Result<u64, TranslationFault>)
        requires
            B::valid(old(bus).model()),
        ensures
            (r, final(bus).model()) == self@.translate::<B>(
                old(bus).model(),
                address,
                len as nat,
                access,
            ),
            B::valid(final(bus).model()),
    {
        let privilege: Privilege = self.effective_privilege(access);
        let physical: u64 = if privilege == Privilege::Machine || self.control.satp >> 60
            != SATP_MODE_SV39 {
            address
        } else {
            match self.walk_sv39(bus, address, access, privilege) {
                Ok(physical) => physical,
                Err(fault) => {
                    return Err(fault);
                },
            }
        };
        if self.pmp_access_ok(physical, len as u64, access, privilege) {
            Ok(physical)
        } else {
            Err(TranslationFault::Access)
        }
    }

    fn fill_tlb<B: CpuBus>(&mut self, bus: &mut B, address: u64, physical: u64, access: Access)
        requires
            B::valid(old(bus).model()),
        ensures
            (final(self)@, final(bus).model()) == old(self)@.filled::<B>(
                old(bus).model(),
                address,
                physical,
                access,
            ),
            B::valid(final(bus).model()),
    {
        let privilege: Privilege = self.effective_privilege(access);
        let physical_page: u64 = physical - physical % 4096;
        let index: usize = (address / 4096 % 256) as usize;
        if !self.pmp_access_ok(physical_page, 4096, access, privilege) {
            return;
        }
        match bus.ram_range(GuestAddress(physical_page), 4096, access == Access::Write) {
            Ok(arena_page) => {
                let entry = TlbEntry { virtual_page: address - address % 4096, arena_page };
                match access {
                    Access::Read => {
                        self.tlb_read[index] = entry;
                    },
                    Access::Write => {
                        self.tlb_write[index] = entry;
                    },
                    Access::Execute => {
                        self.tlb_execute[index] = entry;
                    },
                }
            },
            Err(_) => {},
        }
    }

    fn entry_for(&self, access: Access, address: u64) -> (r: TlbEntry)
        ensures
            r == self@.tlb(access)[tlb_index(address)],
    {
        let index: usize = (address / 4096 % 256) as usize;
        match access {
            Access::Read => self.tlb_read[index],
            Access::Write => self.tlb_write[index],
            Access::Execute => self.tlb_execute[index],
        }
    }

    fn load_aligned<B: CpuBus>(
        &mut self,
        bus: &mut B,
        address: u64,
        width: AccessWidth,
        access: Access,
    ) -> (r: Result<u64, Trap>)
        requires
            B::valid(old(bus).model()),
        ensures
            (r, final(self)@, final(bus).model()) == old(self)@.load_aligned::<B>(
                old(bus).model(),
                address,
                width,
                access,
            ),
            B::valid(final(bus).model()),
    {
        let entry: TlbEntry = self.entry_for(access, address);
        if entry.virtual_page == address - address % 4096 {
            let offset: u64 = entry.arena_page.0 as u64 + address % 4096;
            return match read_arena(bus.arena(), offset, width) {
                Some(value) => Ok(value),
                None => Err(access_trap(access, address)),
            };
        }
        let physical: u64 = match self.translate(bus, address, width.bytes(), access) {
            Ok(physical) => physical,
            Err(fault) => {
                return Err(translation_trap(access, address, fault));
            },
        };
        match bus.read(GuestAddress(physical), width) {
            Ok(value) => {
                self.fill_tlb(bus, address, physical, access);
                Ok(value)
            },
            Err(_) => Err(access_trap(access, address)),
        }
    }

    pub fn load<B: CpuBus>(
        &mut self,
        bus: &mut B,
        address: u64,
        width: AccessWidth,
        access: Access,
    ) -> (r: Result<u64, Trap>)
        requires
            B::valid(old(bus).model()),
        ensures
            (r, final(self)@, final(bus).model()) == old(self)@.load::<B>(
                old(bus).model(),
                address,
                width,
                access,
            ),
            B::valid(final(bus).model()),
    {
        let len: usize = width.bytes();
        if address % (len as u64) == 0 {
            return self.load_aligned(bus, address, width, access);
        }
        let mut value: u64 = 0;
        let mut index: usize = 0;
        let ghost start = self@.load_pieces::<B>(bus.model(), address, len as nat, access, 0, 0);
        while index < len
            invariant
                index <= len <= 8,
                B::valid(bus.model()),
                start == old(self)@.load::<B>(old(bus).model(), address, width, access),
                start == self@.load_pieces::<B>(
                    bus.model(),
                    address,
                    len as nat,
                    access,
                    index as nat,
                    value,
                ),
            decreases len - index,
        {
            match self.load_aligned(
                bus,
                address.wrapping_add(index as u64),
                AccessWidth::Byte,
                access,
            ) {
                Ok(byte) => {
                    value = value | (byte << (index as u64 * 8));
                },
                Err(trap) => {
                    assert(start == (Err::<u64, Trap>(trap), self@, bus.model()));
                    return Err(trap);
                },
            }
            index = index + 1;
        }
        Ok(value)
    }

    fn store_aligned<B: CpuBus>(
        &mut self,
        bus: &mut B,
        address: u64,
        width: AccessWidth,
        value: u64,
    ) -> (r: Result<(), Trap>)
        requires
            B::valid(old(bus).model()),
        ensures
            (r, final(self)@, final(bus).model()) == old(self)@.store_aligned::<B>(
                old(bus).model(),
                address,
                width,
                value,
            ),
            B::valid(final(bus).model()),
    {
        let entry: TlbEntry = self.entry_for(Access::Write, address);
        if entry.virtual_page == address - address % 4096 {
            let offset: u64 = entry.arena_page.0 as u64 + address % 4096;
            proof {
                let m = bus.model();
                let arena = B::arena_of(m);
                B::arena_keeps_valid(m, arena);
                B::arena_keeps_valid(
                    m,
                    bytes::spliced(
                        arena,
                        offset as int,
                        bytes::le_bytes(value as nat, width.size()),
                    ),
                );
            }
            return match write_arena(bus.arena_mut(), offset, width, value) {
                Some(()) => Ok(()),
                None => Err(access_trap(Access::Write, address)),
            };
        }
        let physical: u64 = match self.translate(bus, address, width.bytes(), Access::Write) {
            Ok(physical) => physical,
            Err(fault) => {
                return Err(translation_trap(Access::Write, address, fault));
            },
        };
        match bus.write(GuestAddress(physical), width, value) {
            Ok(()) => {
                self.fill_tlb(bus, address, physical, Access::Write);
                Ok(())
            },
            Err(_) => Err(access_trap(Access::Write, address)),
        }
    }

    pub fn store<B: CpuBus>(
        &mut self,
        bus: &mut B,
        address: u64,
        width: AccessWidth,
        value: u64,
    ) -> (r: Result<(), Trap>)
        requires
            B::valid(old(bus).model()),
        ensures
            (r, final(self)@, final(bus).model()) == old(self)@.store::<B>(
                old(bus).model(),
                address,
                width,
                value,
            ),
            B::valid(final(bus).model()),
    {
        let len: usize = width.bytes();
        if address % (len as u64) == 0 {
            return self.store_aligned(bus, address, width, value);
        }
        let mut index: usize = 0;
        let ghost start = self@.store_pieces::<B>(bus.model(), address, len as nat, value, 0);
        while index < len
            invariant
                index <= len <= 8,
                B::valid(bus.model()),
                start == old(self)@.store::<B>(old(bus).model(), address, width, value),
                start == self@.store_pieces::<B>(
                    bus.model(),
                    address,
                    len as nat,
                    value,
                    index as nat,
                ),
            decreases len - index,
        {
            match self.store_aligned(
                bus,
                address.wrapping_add(index as u64),
                AccessWidth::Byte,
                value >> (index as u64 * 8),
            ) {
                Ok(()) => {},
                Err(trap) => {
                    assert(start == (Err::<(), Trap>(trap), self@, bus.model()));
                    return Err(trap);
                },
            }
            index = index + 1;
        }
        Ok(())
    }

    /// Checks that a store could be made, without making it.
    pub fn check_store<B: CpuBus>(&mut self, bus: &mut B, address: u64, width: AccessWidth) -> (r:
        Result<(), Trap>)
        requires
            B::valid(old(bus).model()),
        ensures
            (r, final(self)@, final(bus).model()) == old(self)@.check_store::<B>(
                old(bus).model(),
                address,
                width,
            ),
            B::valid(final(bus).model()),
    {
        if self.entry_for(Access::Write, address).virtual_page == address - address % 4096 {
            return Ok(());
        }
        match self.translate(bus, address, width.bytes(), Access::Write) {
            Ok(_) => Ok(()),
            Err(fault) => Err(translation_trap(Access::Write, address, fault)),
        }
    }

    /// Loads a value that is about to be replaced: failures are those of the
    /// store.
    pub fn load_for_store<B: CpuBus>(
        &mut self,
        bus: &mut B,
        address: u64,
        width: AccessWidth,
    ) -> (r: Result<u64, Trap>)
        requires
            B::valid(old(bus).model()),
        ensures
            (r, final(self)@, final(bus).model()) == old(self)@.load::<B>(
                old(bus).model(),
                address,
                width,
                Access::Write,
            ),
            B::valid(final(bus).model()),
    {
        self.load(bus, address, width, Access::Write)
    }

    pub fn cache_block<B: CpuBus>(&mut self, bus: &mut B, address: u64, zero: bool) -> (r: Result<
        (),
        Trap,
    >)
        requires
            B::valid(old(bus).model()),
        ensures
            (r, final(self)@, final(bus).model()) == old(self)@.cache_block::<B>(
                old(bus).model(),
                address,
                zero,
            ),
            B::valid(final(bus).model()),
    {
        let block: u64 = address - address % CACHE_BLOCK;
        if !zero {
            return self.check_store(bus, block, AccessWidth::DoubleWord);
        }
        let mut index: u64 = 0;
        let ghost start = self@.zero_words::<B>(bus.model(), block, 0);
        while index < 8
            invariant
                index <= 8,
                B::valid(bus.model()),
                start == old(self)@.cache_block::<B>(old(bus).model(), address, zero),
                start == self@.zero_words::<B>(bus.model(), block, index as nat),
            decreases 8 - index,
        {
            match self.store_aligned(
                bus,
                block.wrapping_add(index * 8),
                AccessWidth::DoubleWord,
                0,
            ) {
                Ok(()) => {},
                Err(trap) => {
                    assert(start == (Err::<(), Trap>(trap), self@, bus.model()));
                    return Err(trap);
                },
            }
            index = index + 1;
        }
        Ok(())
    }

    /// Forgets cached write translations to a part of the arena.
    pub fn invalidate_write_range(&mut self, start: ArenaOffset, len: u32)
        ensures
            final(self)@ == old(self)@.without_writes(start, len),
    {
        let first: u64 = start.0 as u64;
        let end: u64 = first + len as u64;
        let mut i: usize = 0;
        while i < 256
            invariant
                i <= 256,
                first == start.0,
                end == first + len,
                self@ == (CpuModel { tlb_write: self.tlb_write@, ..old(self)@ }),
                forall|j: int|
                    0 <= j < i ==> self.tlb_write@[j] == old(self)@.without_writes(
                        start,
                        len,
                    ).tlb_write[j],
                forall|j: int| i <= j < 256 ==> self.tlb_write@[j] == old(self)@.tlb_write[j],
            decreases 256 - i,
        {
            let offset: u64 = self.tlb_write[i].arena_page.0 as u64;
            if offset >= first && offset < end {
                self.tlb_write[i] = TlbEntry { virtual_page: u64::MAX, arena_page: ArenaOffset(0) };
            }
            i = i + 1;
        }
        assert(self.tlb_write@ =~= old(self)@.without_writes(start, len).tlb_write);
    }
}

} // verus!
