//! What page tables and physical memory protection mean for a guest, in numbers.

use vstd::prelude::*;
use crate::bytes;
use crate::cpu::alu;
use crate::cpu::mmu::{fault_trap, Access, TranslationFault};
use crate::cpu::{BusError, CpuBus, CpuModel, Privilege, TlbEntry, Trap};
use crate::memory::AccessWidth;

verus! {

/// Bit `value` of a number that is written in powers of two.
pub open spec fn bit_of(x: u64, value: int) -> bool {
    (x as int / value) % 2 == 1
}

/// The bytes that a leaf at a level of the tables maps.
pub open spec fn page_size(level: nat) -> int {
    if level == 0 {
        0x1000
    } else if level == 1 {
        0x20_0000
    } else {
        0x4000_0000
    }
}

/// Where the entry of an address stands in a table: the tables of each level
/// have 512 entries of eight bytes, one for each page of that level.
pub open spec fn entry_place(table: int, address: u64, level: nat) -> int {
    table + 8 * ((address as int / page_size(level)) % 512)
}

/// The page number in an entry.
pub open spec fn page_number(pte: u64) -> int {
    (pte as int / 1024) % 0x1000_0000_0000
}

/// Whether an entry points to another table: it is valid, and nothing else is
/// said in it but where the table is.
pub open spec fn is_pointer(pte: u64) -> bool {
    pte as int % 1024 == 1 && pte < 0x40_0000_0000_0000
}

/// Whether an entry is a leaf for a page of a level: it is valid, something is
/// permitted, no writing without reading, and the page lies on its boundary.
pub open spec fn is_leaf(pte: u64, level: nat) -> bool {
    &&& bit_of(pte, 1)
    &&& bit_of(pte, 2) || bit_of(pte, 8)
    &&& bit_of(pte, 4) ==> bit_of(pte, 2)
    &&& pte < 0x40_0000_0000_0000
    &&& (page_number(pte) * 0x1000) % page_size(level) == 0
}

/// Whether a leaf permits an access: reads need bit 1, or bit 3 where
/// executable pages may be read (`MXR`); writes bit 2; fetches bit 3. User code
/// needs a user page (bit 4). A supervisor may not run a user page, and may
/// touch it only where `SUM` is set.
pub open spec fn permits(mstatus: u64, pte: u64, access: Access, privilege: Privilege) -> bool {
    &&& match access {
        Access::Read => bit_of(pte, 2) || bit_of(mstatus, 0x8_0000) && bit_of(pte, 8),
        Access::Write => bit_of(pte, 4),
        Access::Execute => bit_of(pte, 8),
    }
    &&& match privilege {
        Privilege::User => bit_of(pte, 16),
        Privilege::Supervisor => bit_of(pte, 16) ==> !(access is Execute) && bit_of(mstatus, 0x4_0000),
        Privilege::Machine => true,
    }
}

/// Whether a leaf says that its page was accessed (bit 6) and, for a write,
/// that it was written (bit 7).
pub open spec fn is_marked(pte: u64, access: Access) -> bool {
    bit_of(pte, 64) && (access is Write ==> bit_of(pte, 128))
}

/// Whether an entry can be read where it stands, and what is read.
pub open spec fn entry_is<B: CpuBus>(
    c: CpuModel,
    m: B::Model,
    place: int,
    pte: u64,
    after: B::Model,
) -> bool {
    &&& 0 <= place <= u64::MAX
    &&& c.pmp_allows(place as u64, 8, Access::Read, Privilege::Supervisor)
    &&& B::reads(m, place as u64, AccessWidth::DoubleWord) == (Ok::<u64, BusError>(pte), after)
}

/// Whether an address can be translated at all: its bits from 38 on are equal.
pub open spec fn canonical(address: u64) -> bool {
    address < 0x40_0000_0000 || address >= 0xffff_ffc0_0000_0000
}

/// Where the first table is.
pub open spec fn root_table(satp: u64) -> int {
    (satp as int % 0x1000_0000_0000) * 0x1000
}

proof fn lemma_entry_bits(pte: u64)
    ensures
        (pte & 1 == 0) == !bit_of(pte, 1),
        (pte & 0x10 != 0) == bit_of(pte, 16),
        (pte & 0x40 == 0) == !bit_of(pte, 64),
        (pte & 0x80 == 0) == !bit_of(pte, 128),
        pte % 1024 == 1 ==> (pte >> 1) & 7 == 0,
        ((pte >> 10) & 0xfff_ffff_ffff) << 12 == page_number(pte) * 4096,
        pte < 0x40_0000_0000_0000 ==> pte & 0x1fc0_0000_0000_0000 == 0 && pte
            & 0x6000_0000_0000_0000 == 0 && pte & 0x8000_0000_0000_0000 == 0,
        is_pointer(pte) ==> pte & 0xe000_0000_0000_00d0 == 0,
        ({
            let p = (pte >> 1) & 7;
            &&& (p & 1 != 0) == bit_of(pte, 2)
            &&& (p & 2 != 0) == bit_of(pte, 4)
            &&& (p & 4 != 0) == bit_of(pte, 8)
            &&& ((p | (p >> 2)) & 1 != 0) == (bit_of(pte, 2) || bit_of(pte, 8))
            &&& (p == 2 || p == 6) == (bit_of(pte, 4) && !bit_of(pte, 2))
            &&& (p == 0) == (!bit_of(pte, 2) && !bit_of(pte, 4) && !bit_of(pte, 8))
        }),
{
    let p = (pte >> 1) & 7;
    assert((p & 1 != 0) == (pte / 2 % 2 == 1) && (p & 2 != 0) == (pte / 4 % 2 == 1) && (p & 4 != 0)
        == (pte / 8 % 2 == 1) && ((p | (p >> 2)) & 1 != 0) == (pte / 2 % 2 == 1 || pte / 8 % 2
        == 1) && (p == 2 || p == 6) == (pte / 4 % 2 == 1 && pte / 2 % 2 == 0) && (p == 0) == (pte
        / 2 % 2 == 0 && pte / 4 % 2 == 0 && pte / 8 % 2 == 0) && (pte & 1 == 0) == (pte % 2 == 0) && (pte & 0x10 != 0) == (pte / 16 % 2 == 1) && (pte
        & 0x40 == 0) == (pte / 64 % 2 == 0) && (pte & 0x80 == 0) == (pte / 128 % 2 == 0) && (pte
        % 1024 == 1 ==> (pte >> 1) & 7 == 0) && ((pte >> 10) & 0xfff_ffff_ffff) << 12 == ((pte / 1024)
        % 0x1000_0000_0000) * 4096 && (pte < 0x40_0000_0000_0000 ==> pte & 0x1fc0_0000_0000_0000
        == 0 && pte & 0x6000_0000_0000_0000 == 0 && pte & 0x8000_0000_0000_0000 == 0) && (pte
        < 0x40_0000_0000_0000 && pte % 1024 == 1 ==> pte & 0xe000_0000_0000_00d0 == 0))
        by (bit_vector)
        requires
            p == (pte >> 1) & 7,
    ;
}

proof fn lemma_status_bits(x: u64)
    ensures
        (x & 0x8_0000 != 0) == bit_of(x, 0x8_0000),
        (x & 0x4_0000 != 0) == bit_of(x, 0x4_0000),
        (x & 0x2_0000 != 0) == bit_of(x, 0x2_0000),
        (x & 0x2000_0000_0000_0000 == 0) == !bit_of(x, 0x2000_0000_0000_0000),
        (x & 0x1800) >> 11 == (x / 0x800) % 4,
        x & 0xfff_ffff_ffff == x % 0x1000_0000_0000,
        (x & 0xfff_ffff_ffff) << 12 == root_table(x),
        x >> 60 == x / 0x1000_0000_0000_0000,
{
    assert((x & 0x8_0000 != 0) == (x / 0x8_0000 % 2 == 1) && (x & 0x4_0000 != 0) == (x / 0x4_0000
        % 2 == 1) && (x & 0x2_0000 != 0) == (x / 0x2_0000 % 2 == 1) && (x & 0x2000_0000_0000_0000
        == 0) == (x / 0x2000_0000_0000_0000 % 2 == 0) && (x & 0x1800) >> 11 == (x / 0x800) % 4 && x
        & 0xfff_ffff_ffff == x % 0x1000_0000_0000 && (x & 0xfff_ffff_ffff) << 12 == (x
        % 0x1000_0000_0000) * 0x1000 && x >> 60 == x / 0x1000_0000_0000_0000) by (bit_vector);
}

proof fn lemma_address_bits(address: u64, physical: u64)
    ensures
        address >> 12 == address / 0x1000,
        address >> 21 == address / 0x20_0000,
        address >> 30 == address / 0x4000_0000,
        (address >> 38 == 0 || address >> 38 == 0x3ff_ffff) == canonical(address),
        physical & 0xfff == physical % 0x1000,
        physical & 0x1f_ffff == physical % 0x20_0000,
        physical & 0x3fff_ffff == physical % 0x4000_0000,
        physical % 0x1000 == 0 ==> (address & 0xfff) | (physical & !0xfffu64) == address % 0x1000
            + physical,
        physical % 0x20_0000 == 0 ==> (address & 0x1f_ffff) | (physical & !0x1f_ffffu64)
            == address % 0x20_0000 + physical,
        physical % 0x4000_0000 == 0 ==> (address & 0x3fff_ffff) | (physical & !0x3fff_ffffu64)
            == address % 0x4000_0000 + physical,
        1u64 << 12 == 0x1000 && 1u64 << 21 == 0x20_0000 && 1u64 << 30 == 0x4000_0000,
{
    assert(address >> 12 == address / 0x1000 && address >> 21 == address / 0x20_0000 && address
        >> 30 == address / 0x4000_0000 && (address >> 38 == 0 || address >> 38 == 0x3ff_ffff) == (
    address < 0x40_0000_0000 || address >= 0xffff_ffc0_0000_0000) && physical & 0xfff == physical
        % 0x1000 && physical & 0x1f_ffff == physical % 0x20_0000 && physical & 0x3fff_ffff
        == physical % 0x4000_0000 && (physical % 0x1000 == 0 ==> (address & 0xfff) | (physical
        & !0xfffu64) == address % 0x1000 + physical) && (physical % 0x20_0000 == 0 ==> (address
        & 0x1f_ffff) | (physical & !0x1f_ffffu64) == address % 0x20_0000 + physical) && (physical
        % 0x4000_0000 == 0 ==> (address & 0x3fff_ffff) | (physical & !0x3fff_ffffu64) == address
        % 0x4000_0000 + physical) && 1u64 << 12 == 0x1000 && 1u64 << 21 == 0x20_0000 && 1u64 << 30
        == 0x4000_0000) by (bit_vector);
}

/// A walk that comes to a pointer goes on in the table that it points to.
proof fn lemma_pointer<B: CpuBus>(
    c: CpuModel,
    m: B::Model,
    address: u64,
    access: Access,
    privilege: Privilege,
    level: nat,
    table: u64,
    pte: u64,
    n: B::Model,
)
    requires
        1 <= level <= 2,
        table <= 0xff_ffff_ffff_ffff,
        is_pointer(pte),
        entry_is::<B>(c, m, entry_place(table as int, address, level), pte, n),
    ensures
        page_number(pte) * 4096 <= 0xff_ffff_ffff_ffff,
        c.walk_from::<B>(m, address, access, privilege, level, table) == c.walk_from::<B>(
            n,
            address,
            access,
            privilege,
            (level - 1) as nat,
            (page_number(pte) * 4096) as u64,
        ),
{
    lemma_entry_bits(pte);
    lemma_address_bits(address, 0);
}

/// Whether a leaf is well formed and permits an access.
proof fn lemma_leaf_base(c: CpuModel, address: u64, level: nat, pte: u64)
    requires
        level <= 2,
        is_leaf(pte, level),
    ensures
        !c.pte_invalid(pte),
        (pte >> 1) & 7 != 0,
        c.leaf_base(pte, address, level) == Some((page_number(pte) * 4096) as u64),
{
    let physical = ((pte >> 10) & 0xfff_ffff_ffff) << 12;
    lemma_entry_bits(pte);
    lemma_address_bits(address, physical);
    let ones = alu::low_ones((12 + 9 * level) as u64);
    assert(ones == page_size(level) - 1);
    assert(physical & ones == 0);
}

proof fn lemma_leaf_permits(
    c: CpuModel,
    pte: u64,
    access: Access,
    privilege: Privilege,
)
    ensures
        c.leaf_permits(pte, access, privilege) == permits(
            c.control.mstatus,
            pte,
            access,
            privilege,
        ),
{
    lemma_entry_bits(pte);
    lemma_status_bits(c.control.mstatus);
}

/// A walk that comes to a leaf ends there.
proof fn lemma_leaf<B: CpuBus>(
    c: CpuModel,
    m: B::Model,
    address: u64,
    access: Access,
    privilege: Privilege,
    level: nat,
    table: u64,
    pte: u64,
    n: B::Model,
)
    requires
        level <= 2,
        table <= 0xff_ffff_ffff_ffff,
        is_leaf(pte, level),
        entry_is::<B>(c, m, entry_place(table as int, address, level), pte, n),
    ensures
        ({
            let walked = c.walk_from::<B>(m, address, access, privilege, level, table);
            let place = page_number(pte) * 4096 + address as int % page_size(level);
            &&& !permits(c.control.mstatus, pte, access, privilege) ==> walked == (
                Err::<u64, _>(TranslationFault::Page),
                n,
            )
            &&& permits(c.control.mstatus, pte, access, privilege) && is_marked(pte, access)
                ==> walked == (Ok::<_, TranslationFault>(place as u64), n)
            &&& permits(c.control.mstatus, pte, access, privilege) && !is_marked(pte, access)
                && !bit_of(c.control.menvcfg, 0x2000_0000_0000_0000) ==> walked == (
                Err::<u64, _>(TranslationFault::Page),
                n,
            )
        }),
{
    lemma_leaf_base(c, address, level, pte);
    lemma_leaf_permits(c, pte, access, privilege);
    lemma_entry_bits(pte);
    lemma_address_bits(address, (page_number(pte) * 4096) as u64);
    lemma_status_bits(c.control.menvcfg);
    let place = entry_place(table as int, address, level) as u64;
    assert(c.read_pte::<B>(m, place) == (Ok::<u64, TranslationFault>(pte), n));
    let ones = alu::low_ones((12 + 9 * level) as u64);
    assert(ones == page_size(level) - 1);
}

/// What a walk over pages of 4 KiB, 2 MiB or 1 GiB (`level` 0, 1 or 2) gives: the
/// root table has the entry of the address at `VPN[2]`, which points to a table
/// that has its entry at `VPN[1]`, which points to one that has it at `VPN[0]`,
/// as far as the leaf is down. The leaf decides. Where it permits the access and
/// is marked, the address lands in its page, as far from the start as before.
pub proof fn law_walk_reaches_the_mapped_page<B: CpuBus>(
    c: CpuModel,
    m: B::Model,
    address: u64,
    access: Access,
    privilege: Privilege,
    level: nat,
    ptes: (u64, u64, u64),
    models: (B::Model, B::Model, B::Model),
)
    requires
        level <= 2,
        canonical(address),
        entry_is::<B>(
            c,
            m,
            entry_place(root_table(c.control.satp), address, 2),
            ptes.0,
            models.0,
        ),
        level < 2 ==> is_pointer(ptes.0) && entry_is::<B>(
            c,
            models.0,
            entry_place(page_number(ptes.0) * 4096, address, 1),
            ptes.1,
            models.1,
        ),
        level < 1 ==> is_pointer(ptes.1) && entry_is::<B>(
            c,
            models.1,
            entry_place(page_number(ptes.1) * 4096, address, 0),
            ptes.2,
            models.2,
        ),
        level == 0 ==> is_leaf(ptes.2, 0),
        level == 1 ==> is_leaf(ptes.1, 1),
        level == 2 ==> is_leaf(ptes.0, 2),
    ensures
        ({
            let pte = if level == 0 {
                ptes.2
            } else if level == 1 {
                ptes.1
            } else {
                ptes.0
            };
            let n = if level == 0 {
                models.2
            } else if level == 1 {
                models.1
            } else {
                models.0
            };
            let walked = c.walk_sv39::<B>(m, address, access, privilege);
            let place = page_number(pte) * 4096 + address as int % page_size(level);
            &&& permits(c.control.mstatus, pte, access, privilege) && is_marked(pte, access)
                ==> walked == (Ok::<_, TranslationFault>(place as u64), n)
            &&& !permits(c.control.mstatus, pte, access, privilege) ==> walked == (
                Err::<u64, _>(TranslationFault::Page),
                n,
            )
            &&& !is_marked(pte, access) && !bit_of(c.control.menvcfg, 0x2000_0000_0000_0000)
                ==> walked == (Err::<u64, _>(TranslationFault::Page), n)
        }),
{
    lemma_address_bits(address, 0);
    lemma_status_bits(c.control.satp);
    let root = root_table(c.control.satp) as u64;
    assert(c.walk_sv39::<B>(m, address, access, privilege) == c.walk_from::<B>(
        m,
        address,
        access,
        privilege,
        2,
        root,
    ));
    if level == 2 {
        lemma_leaf::<B>(c, m, address, access, privilege, 2, root, ptes.0, models.0);
    } else {
        lemma_pointer::<B>(c, m, address, access, privilege, 2, root, ptes.0, models.0);
        let second = (page_number(ptes.0) * 4096) as u64;
        if level == 1 {
            lemma_leaf::<B>(c, models.0, address, access, privilege, 1, second, ptes.1, models.1);
        } else {
            lemma_pointer::<B>(
                c,
                models.0,
                address,
                access,
                privilege,
                1,
                second,
                ptes.1,
                models.1,
            );
            let third = (page_number(ptes.1) * 4096) as u64;
            lemma_leaf::<B>(c, models.1, address, access, privilege, 0, third, ptes.2, models.2);
        }
    }
}

/// An address whose high bits do not agree, or whose first entry is not valid,
/// gives a page fault.
pub proof fn law_unmapped_address_faults<B: CpuBus>(
    c: CpuModel,
    m: B::Model,
    address: u64,
    access: Access,
    privilege: Privilege,
    pte: u64,
    n: B::Model,
)
    ensures
        !canonical(address) ==> c.walk_sv39::<B>(m, address, access, privilege) == (
            Err::<u64, _>(TranslationFault::Page),
            m,
        ),
        canonical(address) && !bit_of(pte, 1) && entry_is::<B>(
            c,
            m,
            entry_place(root_table(c.control.satp), address, 2),
            pte,
            n,
        ) ==> c.walk_sv39::<B>(m, address, access, privilege) == (
            Err::<u64, _>(TranslationFault::Page),
            n,
        ),
{
    lemma_address_bits(address, 0);
    lemma_status_bits(c.control.satp);
    lemma_entry_bits(pte);
}

/// The privilege that counts for an access: loads and stores may be told to go by
/// the privilege in `MPP` (`MPRV`, bit 17); fetches always go by the current one.
pub open spec fn effective(c: CpuModel, access: Access) -> Privilege {
    if access is Execute || !bit_of(c.control.mstatus, 0x2_0000) {
        c.control.privilege
    } else {
        let previous = (c.control.mstatus as int / 0x800) % 4;
        if previous == 0 {
            Privilege::User
        } else if previous == 1 {
            Privilege::Supervisor
        } else {
            Privilege::Machine
        }
    }
}

/// A machine-mode access, and any access while `satp` does not name Sv39 (8 in its
/// four upper bits), goes to the address itself; any other goes through the page
/// tables. Either way the place must be open to the access.
pub proof fn law_translation<B: CpuBus>(
    c: CpuModel,
    m: B::Model,
    address: u64,
    len: nat,
    access: Access,
)
    ensures
        ({
            let privilege = effective(c, access);
            let done = c.translate::<B>(m, address, len, access);
            let direct = privilege == Privilege::Machine || c.control.satp as int
                / 0x1000_0000_0000_0000 != 8;
            let open = |place: u64| c.pmp_allows(place, len, access, privilege);
            &&& direct && open(address) ==> done == (Ok::<u64, TranslationFault>(address), m)
            &&& direct && !open(address) ==> done == (
                Err::<u64, TranslationFault>(TranslationFault::Access),
                m,
            )
            &&& !direct ==> match c.walk_sv39::<B>(m, address, access, privilege) {
                (Ok(place), n) => done == (
                    if open(place) {
                        Ok::<u64, TranslationFault>(place)
                    } else {
                        Err(TranslationFault::Access)
                    },
                    n,
                ),
                (Err(fault), n) => done == (Err::<u64, TranslationFault>(fault), n),
            }
        }),
{
    lemma_status_bits(c.control.mstatus);
    lemma_status_bits(c.control.satp);
}

/// How an entry of the protection table names its range (bits 3 and 4).
pub open spec fn mode(config: u8) -> int {
    (config as int / 8) % 4
}

/// Whether an entry opens its range to an access: a bit each for reading, writing
/// and running; to the machine itself also where the entry is not locked (bit 7).
pub open spec fn opens(config: u8, access: Access, privilege: Privilege) -> bool {
    ||| privilege == Privilege::Machine && config < 128
    ||| match access {
        Access::Read => config % 2 == 1,
        Access::Write => config as int / 2 % 2 == 1,
        Access::Execute => config as int / 4 % 2 == 1,
    }
}

proof fn lemma_config_bits(config: u8, encoded: u64)
    ensures
        (config & 0x18 == 0) == (mode(config) == 0),
        (config & 0x18 == 8) == (mode(config) == 1),
        (config & 0x18 == 0x10) == (mode(config) == 2),
        (config & 0x80 == 0) == (config < 128),
        (config & 1 != 0) == (config % 2 == 1),
        (config & 2 != 0) == (config as int / 2 % 2 == 1),
        (config & 4 != 0) == (config as int / 4 % 2 == 1),
        encoded < 0x4000_0000_0000_0000 ==> encoded << 2 == 4 * encoded,
{
    assert((config & 0x18 == 0) == (config / 8 % 4 == 0) && (config & 0x18 == 8) == (config / 8 % 4
        == 1) && (config & 0x18 == 0x10) == (config / 8 % 4 == 2) && (config & 0x80 == 0) == (config
        < 128) && (config & 1 != 0) == (config % 2 == 1) && (config & 2 != 0) == (config / 2 % 2
        == 1) && (config & 4 != 0) == (config / 4 % 2 == 1) && (encoded < 0x4000_0000_0000_0000
        ==> encoded << 2 == 4 * encoded)) by (bit_vector);
}

proof fn lemma_skips_off(
    c: CpuModel,
    from: nat,
    to: nat,
    address: u64,
    end: u64,
    access: Access,
    privilege: Privilege,
)
    requires
        from <= to <= 16,
        forall|i: int| from <= i < to ==> mode(#[trigger] c.pmpcfg[i]) == 0,
    ensures
        c.pmp_allows_from(from, address, end, access, privilege) == c.pmp_allows_from(
            to,
            address,
            end,
            access,
            privilege,
        ),
    decreases to - from,
{
    if from < to {
        lemma_config_bits(c.pmpcfg[from as int], 0);
        assert(mode(c.pmpcfg[from as int]) == 0);
        lemma_skips_off(c, from + 1, to, address, end, access, privilege);
    }
}

/// The first entry that an access meets decides. An entry of mode 1 covers what
/// lies between four times the address register before it (zero for the first)
/// and four times its own; an entry of mode 2 the four bytes at four times its
/// own. An access that lies wholly in it is judged by it, one that lies partly in
/// it is refused, and one that lies outside goes on to the next. What meets no
/// entry is open to the machine alone.
pub proof fn law_protection(
    c: CpuModel,
    entry: int,
    address: u64,
    len: nat,
    access: Access,
    privilege: Privilege,
)
    requires
        0 <= entry < 16,
        0 < len,
        address + len <= u64::MAX,
        forall|i: int| 0 <= i < 16 ==> (#[trigger] c.pmpaddr[i]) < 0x3fff_ffff_ffff_ffff,
        forall|i: int| 0 <= i < entry ==> mode(#[trigger] c.pmpcfg[i]) == 0,
        mode(c.pmpcfg[entry]) == 1 || mode(c.pmpcfg[entry]) == 2,
    ensures
        ({
            let config = c.pmpcfg[entry];
            let end = address + len;
            let (low, top) = if mode(config) == 1 {
                (
                    if entry == 0 {
                        0
                    } else {
                        4 * c.pmpaddr[entry - 1]
                    },
                    4 * c.pmpaddr[entry],
                )
            } else {
                (4 * c.pmpaddr[entry], 4 * c.pmpaddr[entry] + 4)
            };
            let allowed = c.pmp_allows(address, len, access, privilege);
            &&& low <= address && end <= top ==> allowed == opens(config, access, privilege)
            &&& (address < low < end || address < top < end) && low < top ==> !allowed
            &&& (end <= low || top <= address) ==> allowed == c.pmp_allows_from(
                (entry + 1) as nat,
                address,
                end as u64,
                access,
                privilege,
            )
        }),
{
    let end = (address + len) as u64;
    lemma_skips_off(c, 0, entry as nat, address, end, access, privilege);
    assert(c.pmpaddr[entry] < 0x3fff_ffff_ffff_ffff);
    lemma_config_bits(c.pmpcfg[entry], c.pmpaddr[entry]);
    if entry > 0 {
        assert(c.pmpaddr[entry - 1] < 0x3fff_ffff_ffff_ffff);
        lemma_config_bits(c.pmpcfg[entry], c.pmpaddr[entry - 1]);
    }
}

/// With no entry in use, only the machine may access memory.
pub proof fn law_no_protection(
    c: CpuModel,
    address: u64,
    len: nat,
    access: Access,
    privilege: Privilege,
)
    requires
        address + len <= u64::MAX,
        forall|i: int| 0 <= i < 16 ==> mode(#[trigger] c.pmpcfg[i]) == 0,
    ensures
        c.pmp_allows(address, len, access, privilege) == (privilege == Privilege::Machine),
{
    lemma_skips_off(c, 0, 16, address, (address + len) as u64, access, privilege);
}

/// A failed access traps with the cause of what was tried (1, 5, 7 where the place
/// is closed; 12, 13, 15 where the page is) and the address that was asked for.
pub proof fn law_fault(access: Access, address: u64, fault: TranslationFault)
    ensures
        ({
            let trap = fault_trap(access, address, fault);
            let closed = fault == TranslationFault::Access;
            &&& trap.value == address
            &&& trap.exception.number() == match access {
                Access::Execute => if closed {
                    1int
                } else {
                    12
                },
                Access::Read => if closed {
                    5
                } else {
                    13
                },
                Access::Write => if closed {
                    7
                } else {
                    15
                },
            }
        }),
{
}

/// The place in the arena that a cached translation leads an address to.
pub open spec fn cached_place(entry: TlbEntry, address: u64) -> int {
    entry.arena_page.0 + address as int % 4096
}

/// Whether a cached translation is for the page of an address.
pub open spec fn is_for(entry: TlbEntry, address: u64) -> bool {
    entry.virtual_page == address - address as int % 4096
}

/// A load whose page is cached (256 pages are, by the low bits of their number) reads
/// the bytes at its place, least significant first, and changes nothing.
pub proof fn law_cached_load<B: CpuBus>(c: CpuModel, m: B::Model, address: u64)
    requires
        address % 8 == 0,
        is_for(c.tlb_read[(address as int / 4096) % 256], address),
        cached_place(c.tlb_read[(address as int / 4096) % 256], address) + 8 <= B::arena_of(
            m,
        ).len(),
    ensures
        ({
            let place = cached_place(c.tlb_read[(address as int / 4096) % 256], address);
            let arena = B::arena_of(m);
            &&& c.load::<B>(m, address, AccessWidth::DoubleWord, Access::Read) == (
                Ok::<u64, Trap>(bytes::u64_at(arena, place) as u64),
                c,
                m,
            )
            &&& c.load::<B>(m, address, AccessWidth::Word, Access::Read) == (
                Ok::<u64, Trap>(bytes::u32_at(arena, place) as u64),
                c,
                m,
            )
            &&& c.load::<B>(m, address, AccessWidth::HalfWord, Access::Read) == (
                Ok::<u64, Trap>(bytes::u16_at(arena, place) as u64),
                c,
                m,
            )
        }),
{
    let place = cached_place(c.tlb_read[(address as int / 4096) % 256], address);
    bytes::lemma_numbers_at(B::arena_of(m), place);
}

/// A store whose page is cached writes the bytes at its place, least significant
/// first, and no others.
pub proof fn law_cached_store<B: CpuBus>(c: CpuModel, m: B::Model, address: u64, value: u64)
    requires
        address % 8 == 0,
        is_for(c.tlb_write[(address as int / 4096) % 256], address),
        cached_place(c.tlb_write[(address as int / 4096) % 256], address) + 8 <= B::arena_of(
            m,
        ).len(),
    ensures
        ({
            let place = cached_place(c.tlb_write[(address as int / 4096) % 256], address);
            let before = B::arena_of(m);
            let done = c.store::<B>(m, address, AccessWidth::DoubleWord, value);
            exists|after: Seq<u8>|
                {
                    &&& done == (Ok::<(), Trap>(()), c, #[trigger] B::with_arena(m, after))
                    &&& after.len() == before.len()
                    &&& bytes::u64_at(after, place) == value
                    &&& forall|i: int|
                        0 <= i < before.len() && !(place <= i < place + 8) ==> (#[trigger] after[i])
                            == before[i]
                }
        }),
{
    let place = cached_place(c.tlb_write[(address as int / 4096) % 256], address);
    let before = B::arena_of(m);
    let data = bytes::le_bytes(value as nat, 8);
    bytes::lemma_le_bytes_len(value as nat, 8);
    let after = bytes::spliced(before, place, data);
    assert(after.subrange(place, place + 8) =~= data);
    bytes::lemma_pow256();
    bytes::lemma_written_number(after, place, value as nat, 8);
    assert(c.store::<B>(m, address, AccessWidth::DoubleWord, value) == (
        Ok::<(), Trap>(()),
        c,
        B::with_arena(m, after),
    ));
}

} // verus!
