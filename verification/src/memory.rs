//! Physical address map and fixed guest-memory arena.

use vstd::prelude::*;
use crate::bytes;

verus! {

pub const PAGE_SIZE: u64 = 4096;
pub const MAX_REGIONS: usize = 32;

#[derive(Clone, Copy, Debug, PartialEq, Eq, Structural)]
pub struct GuestAddress(pub u64);

#[derive(Clone, Copy, Debug, PartialEq, Eq, Structural)]
pub struct ArenaOffset(pub u32);

#[derive(Clone, Copy, Debug, PartialEq, Eq, Structural)]
pub enum AccessWidth {
    Byte,
    HalfWord,
    Word,
    DoubleWord,
}

impl AccessWidth {
    pub open spec fn size(self) -> nat {
        match self {
            AccessWidth::Byte => 1,
            AccessWidth::HalfWord => 2,
            AccessWidth::Word => 4,
            AccessWidth::DoubleWord => 8,
        }
    }

    #[must_use]
    pub fn bytes(self) -> (r: usize)
        ensures
            r == self.size(),
            r <= 8,
    {
        match self {
            AccessWidth::Byte => 1,
            AccessWidth::HalfWord => 2,
            AccessWidth::Word => 4,
            AccessWidth::DoubleWord => 8,
        }
    }
}

#[derive(Clone, Copy, Debug, PartialEq, Eq, Structural)]
pub struct RegionId(pub usize);

/// Properties of a RAM region, one bit each.
#[derive(Clone, Copy, Debug, PartialEq, Eq, Structural)]
pub struct RamFlags(pub u8);

pub const ROM_BIT: u8 = 1;
pub const DIRTY_TRACKING_BIT: u8 = 2;
pub const DISABLED_BIT: u8 = 4;

impl Default for RamFlags {
    fn default() -> (r: Self)
        ensures
            r == RamFlags(0),
    {
        RamFlags(0)
    }
}

impl RamFlags {
    /// Writes are refused.
    pub fn rom() -> (r: Self)
        ensures
            r == RamFlags(ROM_BIT),
    {
        RamFlags(ROM_BIT)
    }

    /// Written pages are recorded.
    pub fn dirty_tracking() -> (r: Self)
        ensures
            r == RamFlags(DIRTY_TRACKING_BIT),
    {
        RamFlags(DIRTY_TRACKING_BIT)
    }

    /// The region starts unmapped.
    pub fn disabled() -> (r: Self)
        ensures
            r == RamFlags(DISABLED_BIT),
    {
        RamFlags(DISABLED_BIT)
    }

    #[must_use]
    pub fn union(self, other: Self) -> (r: Self)
        ensures
            r == RamFlags(self.0 | other.0),
    {
        RamFlags(self.0 | other.0)
    }

    pub open spec fn has(self, bit: u8) -> bool {
        self.0 & bit != 0
    }

    pub fn contains(self, bit: u8) -> (r: bool)
        ensures
            r == self.has(bit),
    {
        self.0 & bit != 0
    }

    pub fn bits(self) -> (r: u8)
        ensures
            r == self.0,
    {
        self.0
    }
}

/// Access widths that a device accepts, one bit each.
#[derive(Clone, Copy, Debug, PartialEq, Eq, Structural)]
pub struct DeviceWidths(pub u8);

impl DeviceWidths {
    pub fn u8() -> (r: Self)
        ensures
            r == DeviceWidths(1),
    {
        DeviceWidths(1)
    }

    pub fn u16() -> (r: Self)
        ensures
            r == DeviceWidths(2),
    {
        DeviceWidths(2)
    }

    pub fn u32() -> (r: Self)
        ensures
            r == DeviceWidths(4),
    {
        DeviceWidths(4)
    }

    #[must_use]
    pub fn union(self, other: Self) -> (r: Self)
        ensures
            r == DeviceWidths(self.0 | other.0),
    {
        DeviceWidths(self.0 | other.0)
    }

    pub fn bits(self) -> (r: u8)
        ensures
            r == self.0,
    {
        self.0
    }
}

/// A part of the arena whose cached translations are stale.
#[derive(Clone, Copy, Debug, PartialEq, Eq, Structural)]
pub struct Invalidation {
    pub arena_offset: ArenaOffset,
    pub len: u32,
}

#[derive(Clone, Debug, PartialEq, Eq)]
pub struct DirtySnapshot {
    pub words: Vec<u32>,
    pub invalidation: Option<Invalidation>,
}

#[derive(Clone, Copy, Debug, PartialEq, Eq, Structural)]
pub enum MemoryError {
    ArenaTooLarge,
    InvalidRamSize(u64),
    InvalidRegion(usize),
    RegionLimit,
    RegionTooLarge(u64),
    ReadOnly,
    Unmapped(GuestAddress),
    WrongRegionKind,
}

/// What a region is. The words of `dirty` hold one bit per page.
#[derive(Clone, Debug)]
pub enum RegionKind {
    Ram { arena_offset: ArenaOffset, flags: RamFlags, dirty: Option<DirtyPages> },
    Device { widths: DeviceWidths },
}

#[derive(Clone, Debug)]
pub struct Region {
    pub base: GuestAddress,
    pub original_len: u64,
    pub mapped_len: u64,
    pub kind: RegionKind,
}

/// Bitmap of the pages written since the last snapshot.
#[derive(Clone, Debug)]
pub struct DirtyPages {
    pub words: Vec<u32>,
}

/// The model of a region's kind.
#[verifier::ext_equal]
pub enum KindModel {
    Ram { offset: u32, flags: RamFlags, dirty: Option<Seq<u32>> },
    Device { widths: DeviceWidths },
}

/// The model of a region.
#[verifier::ext_equal]
pub struct RegionModel {
    pub base: u64,
    pub original_len: u64,
    pub mapped_len: u64,
    pub kind: KindModel,
}

/// The model of physical memory.
#[verifier::ext_equal]
pub struct MemoryModel {
    pub arena: Seq<u8>,
    pub regions: Seq<RegionModel>,
}

/// Whether bit `page` of a bitmap is set.
pub open spec fn page_is_dirty(words: Seq<u32>, page: nat) -> bool {
    words[(page / 32) as int] & (1u32 << ((page % 32) as u32)) != 0
}

/// A bitmap with bit `page` set.
pub open spec fn page_marked(words: Seq<u32>, page: nat) -> Seq<u32> {
    words.update((page / 32) as int, words[(page / 32) as int] | (1u32 << ((page % 32) as u32)))
}

/// A bitmap with bit `page` cleared.
pub open spec fn page_cleared(words: Seq<u32>, page: nat) -> Seq<u32> {
    words.update((page / 32) as int, words[(page / 32) as int] & !(1u32 << ((page % 32) as u32)))
}

/// A bitmap with the bits from `first` up to `last` set.
pub open spec fn pages_marked(words: Seq<u32>, first: nat, last: nat) -> Seq<u32>
    decreases last - first,
{
    if first >= last {
        page_marked(words, first)
    } else {
        page_marked(pages_marked(words, first, (last - 1) as nat), last)
    }
}

/// Number of words in the bitmap of a region.
pub open spec fn bitmap_words(len: u64) -> nat {
    ((len / 4096 + 31) / 32) as nat
}

impl RegionModel {
    pub open spec fn covers(self, address: u64) -> bool {
        self.base <= address && address - self.base < self.mapped_len
    }
}

impl MemoryModel {
    /// Index of the first region, from `from` on, that covers an address.
    pub open spec fn find_from(self, address: u64, from: nat) -> Option<nat>
        decreases self.regions.len() - from,
    {
        if from >= self.regions.len() {
            None
        } else if self.regions[from as int].covers(address) {
            Some(from)
        } else {
            self.find_from(address, from + 1)
        }
    }

    pub open spec fn find(self, address: u64) -> Option<nat> {
        self.find_from(address, 0)
    }

    /// Where `len` bytes at an address lie in the arena, or why they cannot be
    /// accessed.
    pub open spec fn resolve(self, address: u64, len: nat, write: bool) -> Result<nat, MemoryError> {
        match self.find(address) {
            None => Err(MemoryError::Unmapped(GuestAddress(address))),
            Some(i) => {
                let region = self.regions[i as int];
                match region.kind {
                    KindModel::Device { .. } => Err(MemoryError::WrongRegionKind),
                    KindModel::Ram { offset, flags, .. } => {
                        if address - region.base + len > region.mapped_len {
                            Err(MemoryError::Unmapped(GuestAddress(address)))
                        } else if write && flags.has(ROM_BIT) {
                            Err(MemoryError::ReadOnly)
                        } else {
                            Ok((offset + (address - region.base)) as nat)
                        }
                    },
                }
            },
        }
    }

    /// Memory with the pages of a range recorded as written.
    pub open spec fn touched(self, address: u64, len: nat) -> MemoryModel {
        match self.find(address) {
            None => self,
            Some(i) => {
                let region = self.regions[i as int];
                match region.kind {
                    KindModel::Ram { offset, flags, dirty: Some(words) } if len > 0 => {
                        let first = ((address - region.base) / 4096) as nat;
                        let last = ((address - region.base + len - 1) / 4096) as nat;
                        let kind = KindModel::Ram {
                            offset,
                            flags,
                            dirty: Some(pages_marked(words, first, last)),
                        };
                        MemoryModel {
                            regions: self.regions.update(i as int, RegionModel { kind, ..region }),
                            ..self
                        }
                    },
                    _ => self,
                }
            },
        }
    }

    /// Memory after a lookup of a range.
    pub open spec fn accessed(self, address: u64, len: nat, write: bool) -> MemoryModel {
        if write && self.resolve(address, len, write) is Ok {
            self.touched(address, len)
        } else {
            self
        }
    }

    /// The bytes of a range.
    pub open spec fn bytes_at(self, address: u64, len: nat) -> Seq<u8> {
        let offset = self.resolve(address, len, false)->Ok_0;
        self.arena.subrange(offset as int, (offset + len) as int)
    }

    /// What a read of `len` bytes gives.
    pub open spec fn read_bytes(self, address: u64, len: nat) -> Result<Seq<u8>, MemoryError> {
        match self.resolve(address, len, false) {
            Ok(_) => Ok(self.bytes_at(address, len)),
            Err(error) => Err(error),
        }
    }

    /// Memory after a write of bytes; unchanged where the write is refused.
    pub open spec fn write_bytes(self, address: u64, data: Seq<u8>) -> MemoryModel {
        match self.resolve(address, data.len(), true) {
            Ok(offset) => MemoryModel {
                arena: bytes::spliced(self.arena, offset as int, data),
                ..self.touched(address, data.len())
            },
            Err(_) => self,
        }
    }

    /// What a read of a number gives.
    pub open spec fn read_value(self, address: u64, width: AccessWidth) -> Result<u64, MemoryError> {
        match self.read_bytes(address, width.size()) {
            Ok(data) => Ok(bytes::le_value(data) as u64),
            Err(error) => Err(error),
        }
    }

    /// Memory after a write of a number.
    pub open spec fn write_value(self, address: u64, width: AccessWidth, value: u64) -> MemoryModel {
        self.write_bytes(address, bytes::le_bytes(value as nat, width.size()))
    }

    /// Whether region `i` holds a part of the arena of its own.
    pub open spec fn region_valid(self, i: int) -> bool {
        let region = self.regions[i];
        &&& region.mapped_len == 0 || region.mapped_len == region.original_len
        &&& match region.kind {
            KindModel::Ram { offset, dirty, .. } => {
                &&& region.original_len > 0
                &&& region.original_len % 4096 == 0
                &&& offset + region.original_len <= self.arena.len()
                &&& dirty matches Some(words) ==> words.len() == bitmap_words(region.original_len)
            },
            KindModel::Device { .. } => region.original_len <= u32::MAX,
        }
    }

    /// End of the part of the arena that a region holds.
    pub open spec fn region_end(self, i: int) -> int {
        match self.regions[i].kind {
            KindModel::Ram { offset, .. } => offset + self.regions[i].original_len,
            KindModel::Device { .. } => 0,
        }
    }

    /// The invariant: regions hold disjoint parts of an arena with 32-bit
    /// offsets, in the order in which they were registered.
    pub open spec fn valid(self) -> bool {
        &&& self.arena.len() <= u32::MAX
        &&& self.regions.len() <= MAX_REGIONS
        &&& forall|i: int| 0 <= i < self.regions.len() ==> #[trigger] self.region_valid(i)
        &&& forall|i: int, j: int|
            0 <= i < j < self.regions.len() ==> (#[trigger] self.regions[j].kind matches
                KindModel::Ram { offset, .. } ==> #[trigger] self.region_end(i) <= offset)
    }
}

/// A region with no page recorded as written.
pub open spec fn unmarked(region: RegionModel) -> RegionModel {
    match region.kind {
        KindModel::Ram { dirty: Some(words), .. } => with_bitmap(
            region,
            Seq::new(words.len(), |i: int| 0u32),
        ),
        _ => region,
    }
}

impl MemoryModel {
    /// The number of a new RAM region, or why there is none, and memory after
    /// the request.
    pub open spec fn ram_added(self, base: u64, len: u64, flags: RamFlags) -> (
        Result<RegionId, MemoryError>,
        MemoryModel,
    ) {
        if self.regions.len() == MAX_REGIONS {
            (Err(MemoryError::RegionLimit), self)
        } else if len == 0 || len % 4096 != 0 {
            (Err(MemoryError::InvalidRamSize(len)), self)
        } else if self.arena.len() + len > u32::MAX {
            (Err(MemoryError::ArenaTooLarge), self)
        } else {
            (
                Ok(RegionId(self.regions.len() as usize)),
                MemoryModel {
                    arena: self.arena + Seq::new(len as nat, |i: int| 0u8),
                    regions: self.regions.push(
                        ram_region(base, len, flags, self.arena.len() as u32),
                    ),
                },
            )
        }
    }

    /// The number of a new device region, or why there is none, and memory
    /// after the request.
    pub open spec fn device_added(
        self,
        base: u64,
        len: u64,
        widths: DeviceWidths,
        enabled: bool,
    ) -> (Result<RegionId, MemoryError>, MemoryModel) {
        if self.regions.len() == MAX_REGIONS {
            (Err(MemoryError::RegionLimit), self)
        } else if len > u32::MAX {
            (Err(MemoryError::RegionTooLarge(len)), self)
        } else {
            let region = RegionModel {
                base,
                original_len: len,
                mapped_len: if enabled {
                    len
                } else {
                    0
                },
                kind: KindModel::Device { widths },
            };
            (
                Ok(RegionId(self.regions.len() as usize)),
                MemoryModel { regions: self.regions.push(region), ..self },
            )
        }
    }

    /// Memory with another bitmap for region `id`.
    pub open spec fn with_pages(self, id: nat, words: Seq<u32>) -> MemoryModel {
        MemoryModel {
            regions: self.regions.update(id as int, with_bitmap(self.regions[id as int], words)),
            ..self
        }
    }

    /// The completed bitmap of a region with the range that it makes stale, and
    /// memory after it was taken.
    pub open spec fn bitmap_taken(self, id: nat) -> (
        Result<(Seq<u32>, Option<Invalidation>), MemoryError>,
        MemoryModel,
    ) {
        if id >= self.regions.len() {
            (Err(MemoryError::InvalidRegion(id as usize)), self)
        } else {
            let region = self.regions[id as int];
            match region.kind {
                KindModel::Device { .. } => (Err(MemoryError::WrongRegionKind), self),
                KindModel::Ram { dirty: None, .. } => (Ok((Seq::empty(), None)), self),
                KindModel::Ram { dirty: Some(words), .. } => {
                    let stale = region.mapped_len != 0 && exists|i: int|
                        0 <= i < words.len() && #[trigger] words[i] != 0;
                    (
                        Ok(
                            (
                                words,
                                if stale {
                                    stale_range(region)
                                } else {
                                    None
                                },
                            ),
                        ),
                        self.with_pages(id, Seq::new(words.len(), |i: int| 0u32)),
                    )
                },
            }
        }
    }

    /// The range that clearing a page's bit makes stale, and memory after it.
    pub open spec fn page_forgotten(self, id: nat, byte_offset: u64) -> (
        Result<Option<Invalidation>, MemoryError>,
        MemoryModel,
    ) {
        if id >= self.regions.len() {
            (Err(MemoryError::InvalidRegion(id as usize)), self)
        } else {
            let region = self.regions[id as int];
            match region.kind {
                KindModel::Device { .. } => (Err(MemoryError::WrongRegionKind), self),
                KindModel::Ram { dirty: None, .. } => (Ok(None), self),
                KindModel::Ram { offset, dirty: Some(words), .. } => if byte_offset
                    >= region.original_len {
                    (Ok(None), self)
                } else {
                    let page = (byte_offset / 4096) as nat;
                    (
                        Ok(
                            if page_is_dirty(words, page) {
                                Some(
                                    Invalidation {
                                        arena_offset: ArenaOffset((offset + page * 4096) as u32),
                                        len: 4096,
                                    },
                                )
                            } else {
                                None
                            },
                        ),
                        self.with_pages(id, page_cleared(words, page)),
                    )
                },
            }
        }
    }

    /// The range that a change of a mapping makes stale, and memory after it.
    pub open spec fn remapped(self, id: nat, base: u64, enabled: bool) -> (
        Result<Option<Invalidation>, MemoryError>,
        MemoryModel,
    ) {
        if id >= self.regions.len() {
            (Err(MemoryError::InvalidRegion(id as usize)), self)
        } else {
            let region = self.regions[id as int];
            if enabled && region.mapped_len != 0 && region.base == base || !enabled
                && region.mapped_len == 0 {
                (Ok(None), self)
            } else {
                let moved = RegionModel {
                    base: if enabled {
                        base
                    } else {
                        0
                    },
                    mapped_len: if enabled {
                        region.original_len
                    } else {
                        0
                    },
                    ..region
                };
                (
                    Ok(stale_range(region)),
                    MemoryModel { regions: self.regions.update(id as int, moved), ..self },
                )
            }
        }
    }

    /// What the memory map looks like, whatever has been written to it.
    #[verifier::opaque]
    pub open spec fn layout(self) -> Seq<RegionModel> {
        Seq::new(self.regions.len(), |i: int| unmarked(self.regions[i]))
    }

    /// Whether this is valid memory with the map of `before`.
    pub open spec fn follows(self, before: MemoryModel) -> bool {
        &&& self.valid()
        &&& self.layout() == before.layout()
        &&& self.arena.len() == before.arena.len()
    }
}

impl View for DirtyPages {
    type V = Seq<u32>;

    open spec fn view(&self) -> Seq<u32> {
        self.words@
    }
}

impl View for RegionKind {
    type V = KindModel;

    open spec fn view(&self) -> KindModel {
        match self {
            RegionKind::Ram { arena_offset, flags, dirty } => KindModel::Ram {
                offset: arena_offset.0,
                flags: *flags,
                dirty: match dirty {
                    Some(pages) => Some(pages@),
                    None => None,
                },
            },
            RegionKind::Device { widths } => KindModel::Device { widths: *widths },
        }
    }
}

impl View for Region {
    type V = RegionModel;

    open spec fn view(&self) -> RegionModel {
        RegionModel {
            base: self.base.0,
            original_len: self.original_len,
            mapped_len: self.mapped_len,
            kind: self.kind@,
        }
    }
}

impl DirtyPages {
    fn new(byte_len: u64) -> (r: Self)
        requires
            byte_len <= u32::MAX,
        ensures
            r@ == Seq::new(bitmap_words(byte_len), |i: int| 0u32),
    {
        let count: usize = ((byte_len / PAGE_SIZE + 31) / 32) as usize;
        let mut words: Vec<u32> = Vec::new();
        words.resize(count, 0);
        assert(words@ =~= Seq::new(bitmap_words(byte_len), |i: int| 0u32));
        DirtyPages { words }
    }

    fn mark(&mut self, byte_offset: u64)
        requires
            byte_offset / 4096 / 32 < old(self)@.len(),
            byte_offset <= u32::MAX,
        ensures
            final(self)@ == page_marked(old(self)@, (byte_offset / 4096) as nat),
    {
        let page: usize = (byte_offset / PAGE_SIZE) as usize;
        let bit: u32 = (page % 32) as u32;
        let word: u32 = self.words[page / 32] | (1u32 << bit);
        self.words[page / 32] = word;
    }

    fn clear(&mut self, byte_offset: u64) -> (r: bool)
        requires
            byte_offset / 4096 / 32 < old(self)@.len(),
            byte_offset <= u32::MAX,
        ensures
            r == page_is_dirty(old(self)@, (byte_offset / 4096) as nat),
            final(self)@ == page_cleared(old(self)@, (byte_offset / 4096) as nat),
    {
        let page: usize = (byte_offset / PAGE_SIZE) as usize;
        let bit: u32 = (page % 32) as u32;
        let mask: u32 = 1u32 << bit;
        let word: u32 = self.words[page / 32];
        self.words[page / 32] = word & !mask;
        word & mask != 0
    }

    /// Hands out the bitmap and starts an empty one.
    fn snapshot(&mut self) -> (r: (Vec<u32>, bool))
        ensures
            r.0@ == old(self)@,
            r.1 == exists|i: int| 0 <= i < old(self)@.len() && old(self)@[i] != 0,
            final(self)@ == Seq::new(old(self)@.len(), |i: int| 0u32),
    {
        let mut fresh: Vec<u32> = Vec::new();
        fresh.resize(self.words.len(), 0);
        assert(fresh@ =~= Seq::new(self@.len(), |i: int| 0u32));
        std::mem::swap(&mut fresh, &mut self.words);
        let mut any: bool = false;
        let mut i: usize = 0;
        while i < fresh.len()
            invariant
                i <= fresh.len(),
                any == exists|j: int| 0 <= j < i && fresh@[j] != 0,
            decreases fresh.len() - i,
        {
            if fresh[i] != 0 {
                any = true;
            }
            i = i + 1;
        }
        (fresh, any)
    }
}

#[derive(Clone, Debug)]
pub struct PhysicalMemory {
    pub arena: Vec<u8>,
    pub regions: Vec<Region>,
}

impl View for PhysicalMemory {
    type V = MemoryModel;

    open spec fn view(&self) -> MemoryModel {
        MemoryModel {
            arena: self.arena@,
            regions: Seq::new(self.regions@.len(), |i: int| self.regions@[i]@),
        }
    }
}

impl Default for PhysicalMemory {
    fn default() -> (r: Self)
        ensures
            r@ == (MemoryModel { arena: Seq::empty(), regions: Seq::empty() }),
            r@.valid(),
    {
        let r = PhysicalMemory { arena: Vec::new(), regions: Vec::new() };
        assert(r@.regions =~= Seq::empty());
        r
    }
}

/// The region that `register_ram` adds.
pub open spec fn ram_region(base: u64, len: u64, flags: RamFlags, offset: u32) -> RegionModel {
    RegionModel {
        base,
        original_len: len,
        mapped_len: if flags.has(DISABLED_BIT) {
            0
        } else {
            len
        },
        kind: KindModel::Ram {
            offset,
            flags: RamFlags(flags.0 & !DISABLED_BIT),
            dirty: if flags.has(DIRTY_TRACKING_BIT) {
                Some(Seq::new(bitmap_words(len), |i: int| 0u32))
            } else {
                None
            },
        },
    }
}

/// The range that a change of a region's mapping makes stale.
pub open spec fn stale_range(region: RegionModel) -> Option<Invalidation> {
    match region.kind {
        KindModel::Ram { offset, .. } => Some(
            Invalidation { arena_offset: ArenaOffset(offset), len: region.original_len as u32 },
        ),
        KindModel::Device { .. } => None,
    }
}

/// A region with another bitmap.
pub open spec fn with_bitmap(region: RegionModel, words: Seq<u32>) -> RegionModel {
    match region.kind {
        KindModel::Ram { offset, flags, .. } => RegionModel {
            kind: KindModel::Ram { offset, flags, dirty: Some(words) },
            ..region
        },
        KindModel::Device { .. } => region,
    }
}

impl PhysicalMemory {
    #[must_use]
    pub fn new() -> (r: Self)
        ensures
            r@ == (MemoryModel { arena: Seq::empty(), regions: Seq::empty() }),
            r@.valid(),
    {
        PhysicalMemory::default()
    }

    fn check_region_capacity(&self) -> (r: Result<(), MemoryError>)
        ensures
            r == (if self@.regions.len() == MAX_REGIONS {
                Err::<(), MemoryError>(MemoryError::RegionLimit)
            } else {
                Ok(())
            }),
    {
        if self.regions.len() == MAX_REGIONS {
            Err(MemoryError::RegionLimit)
        } else {
            Ok(())
        }
    }

    /// Adds an allocated RAM region to the physical address map.
    ///
    /// # Errors
    ///
    /// Returns an error when the region limit is reached, the size is zero or
    /// not page aligned, or the fixed arena would exceed the 32-bit offset
    /// space.
    pub fn register_ram(
        &mut self,
        base: GuestAddress,
        len: u64,
        flags: RamFlags,
    ) -> (r: Result<RegionId, MemoryError>)
        requires
            old(self)@.valid(),
        ensures
            final(self)@.valid(),
            (r, final(self)@) == old(self)@.ram_added(base.0, len, flags),
    {
        match self.check_region_capacity() {
            Ok(()) => {},
            Err(error) => {
                return Err(error);
            },
        }
        if len == 0 || len % PAGE_SIZE != 0 {
            return Err(MemoryError::InvalidRamSize(len));
        }
        if len > 0xffff_ffff || self.arena.len() as u64 + len > 0xffff_ffff {
            return Err(MemoryError::ArenaTooLarge);
        }
        let ghost before = self@;
        let arena_offset: u32 = self.arena.len() as u32;
        let new_len: usize = self.arena.len() + len as usize;
        self.arena.resize(new_len, 0);
        let mapped_len: u64 = if flags.contains(DISABLED_BIT) {
            0
        } else {
            len
        };
        let dirty: Option<DirtyPages> = if flags.contains(DIRTY_TRACKING_BIT) {
            Some(DirtyPages::new(len))
        } else {
            None
        };
        let id: usize = self.regions.len();
        self.regions.push(
            Region {
                base,
                original_len: len,
                mapped_len,
                kind: RegionKind::Ram {
                    arena_offset: ArenaOffset(arena_offset),
                    flags: RamFlags(flags.0 & !DISABLED_BIT),
                    dirty,
                },
            },
        );
        proof {
            lemma_ram_added(before, base.0, len, flags);
            assert(self@ =~= before.ram_added(base.0, len, flags).1);
        }
        Ok(RegionId(id))
    }

    /// Adds a device region to the physical address map.
    ///
    /// # Errors
    ///
    /// Returns an error when the region limit is reached or the region is
    /// larger than 32 bits can represent.
    pub fn register_device(
        &mut self,
        base: GuestAddress,
        len: u64,
        widths: DeviceWidths,
        enabled: bool,
    ) -> (r: Result<RegionId, MemoryError>)
        requires
            old(self)@.valid(),
        ensures
            final(self)@.valid(),
            (r, final(self)@) == old(self)@.device_added(base.0, len, widths, enabled),
    {
        match self.check_region_capacity() {
            Ok(()) => {},
            Err(error) => {
                return Err(error);
            },
        }
        if len > 0xffff_ffff {
            return Err(MemoryError::RegionTooLarge(len));
        }
        let ghost before = self@;
        let id: usize = self.regions.len();
        self.regions.push(
            Region {
                base,
                original_len: len,
                mapped_len: if enabled {
                    len
                } else {
                    0
                },
                kind: RegionKind::Device { widths },
            },
        );
        proof {
            lemma_device_added(before, base.0, len, widths, enabled);
            assert(self@ =~= before.device_added(base.0, len, widths, enabled).1);
        }
        Ok(RegionId(id))
    }

    #[must_use]
    pub fn region_at(&self, address: GuestAddress) -> (r: Option<RegionId>)
        ensures
            r == (match self@.find(address.0) {
                Some(i) => Some(RegionId(i as usize)),
                None => None,
            }),
            r matches Some(id) ==> id.0 < self@.regions.len() && self@.regions[id.0 as int].covers(
                address.0,
            ) && self@.find(address.0) == Some(id.0 as nat),
    {
        let mut i: usize = 0;
        while i < self.regions.len()
            invariant
                i <= self.regions.len(),
                self@.find(address.0) == self@.find_from(address.0, i as nat),
            decreases self.regions.len() - i,
        {
            let region = &self.regions[i];
            if address.0 >= region.base.0 && address.0 - region.base.0 < region.mapped_len {
                assert(self@.regions[i as int] == region@);
                return Some(RegionId(i));
            }
            i = i + 1;
        }
        None
    }

    pub fn ram_offset(&mut self, address: GuestAddress, write: bool) -> (r: Option<ArenaOffset>)
        requires
            old(self)@.valid(),
        ensures
            r == (match old(self)@.resolve(address.0, 1, write) {
                Ok(offset) => Some(ArenaOffset(offset as u32)),
                Err(_) => None,
            }),
            final(self)@ == old(self)@.accessed(address.0, 1, write),
            final(self)@.valid(),
    {
        match self.ram_range(address, 1, write) {
            Ok(offset) => Some(offset),
            Err(_) => None,
        }
    }

    /// Resolves a complete physical RAM range to its arena offset.
    ///
    /// A successful write lookup marks every touched page dirty.
    ///
    /// # Errors
    ///
    /// Returns an error when the range is unmapped, crosses a region boundary,
    /// resolves to a device, or is read-only.
    pub fn ram_range(
        &mut self,
        address: GuestAddress,
        len: usize,
        write: bool,
    ) -> (r: Result<ArenaOffset, MemoryError>)
        requires
            old(self)@.valid(),
        ensures
            r == (match old(self)@.resolve(address.0, len as nat, write) {
                Ok(offset) => Ok(ArenaOffset(offset as u32)),
                Err(error) => Err(error),
            }),
            final(self)@ == old(self)@.accessed(address.0, len as nat, write),
            final(self)@.valid(),
            r matches Ok(offset) ==> offset.0 + len <= final(self)@.arena.len() && old(self)@.resolve(address.0, len as nat, write) == Ok::<nat, MemoryError>(offset.0 as nat),
    {
        let id: usize = match self.region_at(address) {
            Some(id) => id.0,
            None => {
                return Err(MemoryError::Unmapped(address));
            },
        };
        assert(self@.region_valid(id as int));
        assert(self@.regions[id as int] == self.regions@[id as int]@);
        let byte_offset: u64 = address.0 - self.regions[id].base.0;
        let mapped_len: u64 = self.regions[id].mapped_len;
        let (arena_offset, rom, tracked_pages): (u32, bool, bool) = match &self.regions[id].kind {
            RegionKind::Ram { arena_offset, flags, dirty } => (
                arena_offset.0,
                flags.contains(ROM_BIT),
                dirty.is_some(),
            ),
            RegionKind::Device { .. } => {
                return Err(MemoryError::WrongRegionKind);
            },
        };
        if len as u64 > mapped_len - byte_offset {
            return Err(MemoryError::Unmapped(address));
        }
        if write && rom {
            return Err(MemoryError::ReadOnly);
        }
        if write && len != 0 && tracked_pages {
            self.mark_range(id, byte_offset, len as u64);
        } else {
            assert(self@ == old(self)@.accessed(address.0, len as nat, write));
        }
        Ok(ArenaOffset(arena_offset + byte_offset as u32))
    }

    /// Resolves a complete range for reading, without recording anything.
    ///
    /// # Errors
    ///
    /// Returns an error when the range is not RAM.
    pub fn view_range(&self, address: GuestAddress, len: usize) -> (r: Result<usize, MemoryError>)
        requires
            self@.valid(),
        ensures
            match self@.resolve(address.0, len as nat, false) {
                Ok(offset) => r == Ok::<usize, MemoryError>(offset as usize) && offset + len
                    <= self@.arena.len(),
                Err(error) => r == Err::<usize, MemoryError>(error),
            },
            r matches Ok(offset) ==> self@.resolve(address.0, len as nat, false) == Ok::<
                nat,
                MemoryError,
            >(offset as nat),
    {
        let id: usize = match self.region_at(address) {
            Some(id) => id.0,
            None => {
                return Err(MemoryError::Unmapped(address));
            },
        };
        assert(self@.region_valid(id as int));
        assert(self@.regions[id as int] == self.regions@[id as int]@);
        let byte_offset: u64 = address.0 - self.regions[id].base.0;
        match &self.regions[id].kind {
            RegionKind::Ram { arena_offset, .. } => {
                if len as u64 > self.regions[id].mapped_len - byte_offset {
                    return Err(MemoryError::Unmapped(address));
                }
                Ok(arena_offset.0 as usize + byte_offset as usize)
            },
            RegionKind::Device { .. } => Err(MemoryError::WrongRegionKind),
        }
    }

    /// Marks the pages of `len` bytes from `byte_offset` of a region.
    fn mark_range(&mut self, id: usize, byte_offset: u64, len: u64)
        requires
            old(self)@.valid(),
            id < old(self)@.regions.len(),
            len > 0,
            byte_offset + len <= old(self)@.regions[id as int].original_len,
            old(self)@.regions[id as int].kind matches KindModel::Ram { dirty, .. } && dirty is Some,
        ensures
            final(self)@.valid(),
            final(self)@ == (MemoryModel {
                regions: old(self)@.regions.update(
                    id as int,
                    with_bitmap(
                        old(self)@.regions[id as int],
                        pages_marked(
                            old(self)@.regions[id as int].kind->dirty->0,
                            (byte_offset / 4096) as nat,
                            ((byte_offset + len - 1) / 4096) as nat,
                        ),
                    ),
                ),
                ..old(self)@
            }),
    {
        let ghost before = self@;
        let ghost region = before.regions[id as int];
        let ghost words = region.kind->dirty->0;
        let ghost first = (byte_offset / 4096) as nat;
        assert(before.region_valid(id as int));
        assert(region == self.regions@[id as int]@);
        let last: u64 = (byte_offset + len - 1) / PAGE_SIZE;
        let mut page: u64 = byte_offset / PAGE_SIZE;
        match &mut self.regions[id].kind {
            RegionKind::Ram { dirty, .. } => {
                match dirty {
                    Some(pages) => {
                        pages.mark(page * PAGE_SIZE);
                        while page < last
                            invariant
                                first <= page <= last,
                                last * 4096 <= u32::MAX,
                                last / 32 < pages@.len(),
                                pages@.len() == words.len(),
                                pages@ == pages_marked(words, first, page as nat),
                            decreases last - page,
                        {
                            page = page + 1;
                            pages.mark(page * PAGE_SIZE);
                        }
                    },
                    None => {},
                }
            },
            RegionKind::Device { .. } => {},
        }
        proof {
            let after = self@;
            let marked = pages_marked(words, first, last as nat);
            assert(after.regions =~= before.regions.update(id as int, with_bitmap(region, marked)));
            lemma_bitmap_keeps_valid(before, id as int, marked);
            assert(after =~= MemoryModel {
                regions: before.regions.update(id as int, with_bitmap(region, marked)),
                ..before
            });
        }
    }

    /// Reads a little-endian value from physical RAM.
    ///
    /// # Errors
    ///
    /// Returns an error when the complete value does not resolve to RAM.
    pub fn read(&mut self, address: GuestAddress, width: AccessWidth) -> (r: Result<
        u64,
        MemoryError,
    >)
        requires
            old(self)@.valid(),
        ensures
            r == old(self)@.read_value(address.0, width),
            final(self)@ == old(self)@,
    {
        let len: usize = width.bytes();
        match self.ram_range(address, len, false) {
            Ok(offset) => {
                proof {
                    let data = self@.bytes_at(address.0, len as nat);
                    bytes::lemma_le_value_bound(data);
                    bytes::lemma_pow256();
                }
                Ok(bytes::load_le(self.arena.as_slice(), offset.0 as usize, len))
            },
            Err(error) => Err(error),
        }
    }

    /// Writes a little-endian value to physical RAM.
    ///
    /// # Errors
    ///
    /// Returns an error when the complete value does not resolve to writable
    /// RAM.
    pub fn write(&mut self, address: GuestAddress, width: AccessWidth, value: u64) -> (r: Result<
        (),
        MemoryError,
    >)
        requires
            old(self)@.valid(),
        ensures
            r == (match old(self)@.resolve(address.0, width.size(), true) {
                Ok(_) => Ok(()),
                Err(error) => Err(error),
            }),
            final(self)@ == old(self)@.write_value(address.0, width, value),
            final(self)@.valid(),
    {
        let len: usize = width.bytes();
        let data: Vec<u8> = bytes::to_le(value, len);
        self.write_bytes(address, data.as_slice())
    }

    /// Copies bytes out of physical RAM.
    ///
    /// # Errors
    ///
    /// Returns an error when the complete range does not resolve to RAM.
    pub fn read_bytes(&mut self, address: GuestAddress, len: usize) -> (r: Result<
        Vec<u8>,
        MemoryError,
    >)
        requires
            old(self)@.valid(),
        ensures
            match r {
                Ok(data) => old(self)@.read_bytes(address.0, len as nat) == Ok::<_, MemoryError>(
                    data@,
                ),
                Err(error) => old(self)@.read_bytes(address.0, len as nat) == Err::<Seq<u8>, _>(
                    error,
                ),
            },
            final(self)@ == old(self)@,
    {
        match self.ram_range(address, len, false) {
            Ok(offset) => Ok(bytes::copy_range(self.arena.as_slice(), offset.0 as usize, len)),
            Err(error) => Err(error),
        }
    }

    /// Copies bytes into physical RAM.
    ///
    /// # Errors
    ///
    /// Returns an error when the complete range does not resolve to writable
    /// RAM.
    pub fn write_bytes(&mut self, address: GuestAddress, data: &[u8]) -> (r: Result<
        (),
        MemoryError,
    >)
        requires
            old(self)@.valid(),
        ensures
            r == (match old(self)@.resolve(address.0, data@.len(), true) {
                Ok(_) => Ok(()),
                Err(error) => Err(error),
            }),
            final(self)@ == old(self)@.write_bytes(address.0, data@),
            final(self)@.valid(),
    {
        match self.ram_range(address, data.len(), true) {
            Ok(offset) => {
                let ghost before = self@;
                bytes::splice(&mut self.arena, offset.0 as usize, data);
                proof {
                    assert(self@.regions =~= before.regions);
                    assert(self@ =~= MemoryModel { arena: self@.arena, ..before });
                    lemma_arena_keeps_valid(before, self@.arena);
                }
                Ok(())
            },
            Err(error) => Err(error),
        }
    }

    /// Enables, disables, or moves an existing mapping.
    ///
    /// Returns the RAM range whose cached write translations must be
    /// invalidated. Device mapping changes do not require an invalidation.
    ///
    /// # Errors
    ///
    /// Returns an error when `id` does not identify an existing region.
    pub fn set_mapping(&mut self, id: RegionId, base: GuestAddress, enabled: bool) -> (r: Result<
        Option<Invalidation>,
        MemoryError,
    >)
        requires
            old(self)@.valid(),
        ensures
            final(self)@.valid(),
            (r, final(self)@) == old(self)@.remapped(id.0 as nat, base.0, enabled),
    {
        if id.0 >= self.regions.len() {
            return Err(MemoryError::InvalidRegion(id.0));
        }
        let ghost before = self@;
        assert(before.region_valid(id.0 as int));
        assert(before.regions[id.0 as int] == self.regions@[id.0 as int]@);
        let changed: bool = if enabled {
            self.regions[id.0].mapped_len == 0 || self.regions[id.0].base.0 != base.0
        } else {
            self.regions[id.0].mapped_len != 0
        };
        if !changed {
            return Ok(None);
        }
        let invalidation: Option<Invalidation> = ram_invalidation(&self.regions[id.0]);
        let original_len: u64 = self.regions[id.0].original_len;
        if enabled {
            self.regions[id.0].base = base;
            self.regions[id.0].mapped_len = original_len;
        } else {
            self.regions[id.0].base = GuestAddress(0);
            self.regions[id.0].mapped_len = 0;
        }
        proof {
            let after = self@;
            assert(after.regions =~= before.regions.update(id.0 as int, after.regions[id.0 as int]));
            lemma_remapped_keeps_valid(before, id.0 as nat, base.0, enabled);
        }
        Ok(invalidation)
    }

    /// Starts a new dirty bitmap and returns the completed one.
    ///
    /// # Errors
    ///
    /// Returns an error when `id` is invalid or identifies a device.
    pub fn take_dirty_pages(&mut self, id: RegionId) -> (r: Result<DirtySnapshot, MemoryError>)
        requires
            old(self)@.valid(),
        ensures
            final(self)@.valid(),
            old(self)@.bitmap_taken(id.0 as nat) == (
                match r {
                    Ok(snapshot) => Ok((snapshot.words@, snapshot.invalidation)),
                    Err(error) => Err(error),
                },
                final(self)@,
            ),
    {
        if id.0 >= self.regions.len() {
            return Err(MemoryError::InvalidRegion(id.0));
        }
        let ghost before = self@;
        let ghost region = before.regions[id.0 as int];
        assert(before.region_valid(id.0 as int));
        assert(region == self.regions@[id.0 as int]@);
        let stale: Option<Invalidation> = ram_invalidation(&self.regions[id.0]);
        let mapped: bool = self.regions[id.0].mapped_len != 0;
        match tracking(&self.regions[id.0]) {
            Tracking::Device => {
                return Err(MemoryError::WrongRegionKind);
            },
            Tracking::Unrecorded => {
                return Ok(DirtySnapshot { words: Vec::new(), invalidation: None });
            },
            Tracking::Recorded => {},
        }
        let (words, any): (Vec<u32>, bool) = match &mut self.regions[id.0].kind {
            RegionKind::Ram { dirty: Some(pages), .. } => pages.snapshot(),
            _ => (Vec::new(), false),
        };
        proof {
            let fresh = Seq::new(words@.len(), |i: int| 0u32);
            assert(self@.regions =~= before.regions.update(id.0 as int, with_bitmap(region, fresh)));
            lemma_bitmap_keeps_valid(before, id.0 as int, fresh);
        }
        let invalidation: Option<Invalidation> = if any && mapped {
            stale
        } else {
            None
        };
        Ok(DirtySnapshot { words, invalidation })
    }

    /// Clears the dirty bit for the page containing `byte_offset`.
    ///
    /// # Errors
    ///
    /// Returns an error when `id` is invalid or identifies a device.
    pub fn clear_dirty_page(&mut self, id: RegionId, byte_offset: u64) -> (r: Result<
        Option<Invalidation>,
        MemoryError,
    >)
        requires
            old(self)@.valid(),
        ensures
            final(self)@.valid(),
            (r, final(self)@) == old(self)@.page_forgotten(id.0 as nat, byte_offset),
    {
        if id.0 >= self.regions.len() {
            return Err(MemoryError::InvalidRegion(id.0));
        }
        let ghost before = self@;
        let ghost region = before.regions[id.0 as int];
        assert(before.region_valid(id.0 as int));
        assert(region == self.regions@[id.0 as int]@);
        match tracking(&self.regions[id.0]) {
            Tracking::Device => {
                return Err(MemoryError::WrongRegionKind);
            },
            Tracking::Unrecorded => {
                return Ok(None);
            },
            Tracking::Recorded => {},
        }
        if byte_offset >= self.regions[id.0].original_len {
            return Ok(None);
        }
        let (arena_offset, was_dirty): (u32, bool) = match &mut self.regions[id.0].kind {
            RegionKind::Ram { arena_offset, dirty: Some(pages), .. } => (
                arena_offset.0,
                pages.clear(byte_offset),
            ),
            _ => (0, false),
        };
        proof {
            let words = region.kind->dirty->0;
            let cleared = page_cleared(words, (byte_offset / 4096) as nat);
            assert(self@.regions =~= before.regions.update(
                id.0 as int,
                with_bitmap(region, cleared),
            ));
            lemma_bitmap_keeps_valid(before, id.0 as int, cleared);
        }
        if !was_dirty {
            return Ok(None);
        }
        let page_offset: u32 = (byte_offset / PAGE_SIZE * PAGE_SIZE) as u32;
        Ok(
            Some(
                Invalidation { arena_offset: ArenaOffset(arena_offset + page_offset), len: 4096 },
            ),
        )
    }

    #[must_use]
    pub fn arena(&self) -> (r: &[u8])
        ensures
            r@ == self@.arena,
    {
        self.arena.as_slice()
    }

    pub fn arena_mut(&mut self) -> (r: &mut [u8])
        ensures
            r@ == old(self)@.arena,
            final(self)@ == (MemoryModel { arena: final(r)@, ..old(self)@ }),
    {
        self.arena.as_mut_slice()
    }

    /// Returns the flags stored for a RAM region.
    ///
    /// # Errors
    ///
    /// Returns an error when `id` is invalid or identifies a device.
    pub fn ram_flags(&self, id: RegionId) -> (r: Result<RamFlags, MemoryError>)
        ensures
            r == (if id.0 >= self@.regions.len() {
                Err::<RamFlags, MemoryError>(MemoryError::InvalidRegion(id.0))
            } else {
                match self@.regions[id.0 as int].kind {
                    KindModel::Ram { flags, .. } => Ok(flags),
                    KindModel::Device { .. } => Err(MemoryError::WrongRegionKind),
                }
            }),
    {
        if id.0 >= self.regions.len() {
            return Err(MemoryError::InvalidRegion(id.0));
        }
        match &self.regions[id.0].kind {
            RegionKind::Ram { flags, .. } => Ok(*flags),
            RegionKind::Device { .. } => Err(MemoryError::WrongRegionKind),
        }
    }

    /// Returns the permitted access widths for a device region.
    ///
    /// # Errors
    ///
    /// Returns an error when `id` is invalid or identifies RAM.
    pub fn device_widths(&self, id: RegionId) -> (r: Result<DeviceWidths, MemoryError>)
        ensures
            r == (if id.0 >= self@.regions.len() {
                Err::<DeviceWidths, MemoryError>(MemoryError::InvalidRegion(id.0))
            } else {
                match self@.regions[id.0 as int].kind {
                    KindModel::Device { widths } => Ok(widths),
                    KindModel::Ram { .. } => Err(MemoryError::WrongRegionKind),
                }
            }),
    {
        if id.0 >= self.regions.len() {
            return Err(MemoryError::InvalidRegion(id.0));
        }
        match &self.regions[id.0].kind {
            RegionKind::Device { widths } => Ok(*widths),
            RegionKind::Ram { .. } => Err(MemoryError::WrongRegionKind),
        }
    }
}

/// How a region keeps track of written pages.
#[derive(Clone, Copy, Debug, PartialEq, Eq, Structural)]
enum Tracking {
    Device,
    Unrecorded,
    Recorded,
}

spec fn tracking_of(kind: KindModel) -> Tracking {
    match kind {
        KindModel::Device { .. } => Tracking::Device,
        KindModel::Ram { dirty: None, .. } => Tracking::Unrecorded,
        KindModel::Ram { dirty: Some(_), .. } => Tracking::Recorded,
    }
}

fn tracking(region: &Region) -> (r: Tracking)
    ensures
        r == tracking_of(region@.kind),
{
    match &region.kind {
        RegionKind::Device { .. } => Tracking::Device,
        RegionKind::Ram { dirty, .. } => if dirty.is_some() {
            Tracking::Recorded
        } else {
            Tracking::Unrecorded
        },
    }
}

fn ram_invalidation(region: &Region) -> (r: Option<Invalidation>)
    requires
        region@.kind is Ram ==> region@.original_len <= u32::MAX,
    ensures
        r == stale_range(region@),
{
    match &region.kind {
        RegionKind::Ram { arena_offset, .. } => Some(
            Invalidation { arena_offset: *arena_offset, len: region.original_len as u32 },
        ),
        RegionKind::Device { .. } => None,
    }
}

/// Replacing a bitmap by one of the same length keeps memory valid.
proof fn lemma_bitmap_keeps_valid(m: MemoryModel, i: int, words: Seq<u32>)
    requires
        m.valid(),
        0 <= i < m.regions.len(),
        m.regions[i].kind matches KindModel::Ram { dirty, .. } && dirty is Some,
        words.len() == m.regions[i].kind->dirty->0.len(),
    ensures
        (MemoryModel { regions: m.regions.update(i, with_bitmap(m.regions[i], words)), ..m }).valid(),
{
    let n = MemoryModel { regions: m.regions.update(i, with_bitmap(m.regions[i], words)), ..m };
    assert forall|k: int| 0 <= k < n.regions.len() implies #[trigger] n.region_valid(k) by {
        assert(m.region_valid(k));
    }
    assert forall|k: int, j: int| 0 <= k < j < n.regions.len() implies (
    #[trigger] n.regions[j].kind matches KindModel::Ram { offset, .. } ==> #[trigger] n.region_end(k)
        <= offset) by {
        assert(m.region_end(k) == n.region_end(k));
        assert(m.regions[j].kind is Ram == n.regions[j].kind is Ram);
    }
}

/// A new RAM region keeps memory valid.
proof fn lemma_ram_added(m: MemoryModel, base: u64, len: u64, flags: RamFlags)
    requires
        m.valid(),
    ensures
        m.ram_added(base, len, flags).1.valid(),
{
    let n = m.ram_added(base, len, flags).1;
    assert forall|i: int| 0 <= i < n.regions.len() implies #[trigger] n.region_valid(i) by {
        if i < m.regions.len() {
            assert(m.region_valid(i));
        }
    }
    assert forall|i: int, j: int| 0 <= i < j < n.regions.len() implies (
    #[trigger] n.regions[j].kind matches KindModel::Ram { offset, .. } ==> #[trigger] n.region_end(i)
        <= offset) by {
        assert(m.region_valid(i));
        assert(m.region_end(i) == n.region_end(i));
        if j < m.regions.len() {
            assert(m.regions[j].kind == n.regions[j].kind);
        }
    }
}

/// A new device region keeps memory valid.
proof fn lemma_device_added(
    m: MemoryModel,
    base: u64,
    len: u64,
    widths: DeviceWidths,
    enabled: bool,
)
    requires
        m.valid(),
    ensures
        m.device_added(base, len, widths, enabled).1.valid(),
{
    let n = m.device_added(base, len, widths, enabled).1;
    assert forall|i: int| 0 <= i < n.regions.len() implies #[trigger] n.region_valid(i) by {
        if i < m.regions.len() {
            assert(m.region_valid(i));
        }
    }
    assert forall|i: int, j: int| 0 <= i < j < n.regions.len() implies (
    #[trigger] n.regions[j].kind matches KindModel::Ram { offset, .. } ==> #[trigger] n.region_end(i)
        <= offset) by {
        assert(m.region_end(i) == n.region_end(i));
        if j < m.regions.len() {
            assert(m.regions[j].kind == n.regions[j].kind);
        }
    }
}

/// Moving a region keeps memory valid.
proof fn lemma_remapped_keeps_valid(m: MemoryModel, id: nat, base: u64, enabled: bool)
    requires
        m.valid(),
    ensures
        m.remapped(id, base, enabled).1.valid(),
{
    let n = m.remapped(id, base, enabled).1;
    assert forall|i: int| 0 <= i < n.regions.len() implies #[trigger] n.region_valid(i) by {
        assert(m.region_valid(i));
    }
    assert forall|i: int, j: int| 0 <= i < j < n.regions.len() implies (
    #[trigger] n.regions[j].kind matches KindModel::Ram { offset, .. } ==> #[trigger] n.region_end(i)
        <= offset) by {
        assert(m.region_end(i) == n.region_end(i));
        assert(m.regions[j].kind == n.regions[j].kind);
    }
}

/// Changing bytes keeps memory valid.
pub proof fn lemma_arena_keeps_valid(m: MemoryModel, arena: Seq<u8>)
    requires
        m.valid(),
        arena.len() == m.arena.len(),
    ensures
        (MemoryModel { arena, ..m }).valid(),
{
    let n = MemoryModel { arena, ..m };
    assert forall|k: int| 0 <= k < n.regions.len() implies #[trigger] n.region_valid(k) by {
        assert(m.region_valid(k));
    }
    assert forall|k: int, j: int| 0 <= k < j < n.regions.len() implies (
    #[trigger] n.regions[j].kind matches KindModel::Ram { offset, .. } ==> #[trigger] n.region_end(k)
        <= offset) by {
        assert(m.region_end(k) == n.region_end(k));
    }
}

/// Recording pages changes no mapping.
pub proof fn lemma_touched_keeps_mapping(m: MemoryModel, touched: MemoryModel)
    requires
        touched.regions.len() == m.regions.len(),
        forall|i: int|
            0 <= i < m.regions.len() ==> {
                &&& (#[trigger] touched.regions[i]).base == m.regions[i].base
                &&& touched.regions[i].mapped_len == m.regions[i].mapped_len
                &&& match (touched.regions[i].kind, m.regions[i].kind) {
                    (
                        KindModel::Ram { offset, flags, .. },
                        KindModel::Ram { offset: o, flags: f, .. },
                    ) => offset == o && flags == f,
                    (KindModel::Device { widths }, KindModel::Device { widths: w }) => widths == w,
                    _ => false,
                }
            },
    ensures
        forall|a: u64| #[trigger] touched.find(a) == m.find(a),
        forall|a: u64, len: nat, write: bool| #[trigger]
            touched.resolve(a, len, write) == m.resolve(a, len, write),
{
    assert forall|a: u64| #[trigger] touched.find(a) == m.find(a) by {
        lemma_find_same(m, touched, a, 0);
    }
    assert forall|a: u64, len: nat, write: bool| #[trigger]
        touched.resolve(a, len, write) == m.resolve(a, len, write) by {
        assert(touched.find(a) == m.find(a));
        lemma_find_bound(m, a, 0);
    }
}

proof fn lemma_find_same(m: MemoryModel, n: MemoryModel, a: u64, from: nat)
    requires
        n.regions.len() == m.regions.len(),
        forall|i: int|
            0 <= i < m.regions.len() ==> (#[trigger] n.regions[i]).base == m.regions[i].base
                && n.regions[i].mapped_len == m.regions[i].mapped_len,
    ensures
        n.find_from(a, from) == m.find_from(a, from),
    decreases m.regions.len() - from,
{
    if from < m.regions.len() {
        assert(n.regions[from as int].base == m.regions[from as int].base);
        lemma_find_same(m, n, a, from + 1);
    }
}

/// A found region exists and covers the address.
pub proof fn lemma_find_bound(m: MemoryModel, a: u64, from: nat)
    ensures
        m.find_from(a, from) matches Some(i) ==> from <= i < m.regions.len()
            && m.regions[i as int].covers(a),
    decreases m.regions.len() - from,
{
    if from < m.regions.len() && !m.regions[from as int].covers(a) {
        lemma_find_bound(m, a, from + 1);
    }
}

/// A resolved range lies inside the arena.
pub proof fn lemma_resolve_bound(m: MemoryModel, a: u64, len: nat, write: bool)
    requires
        m.valid(),
    ensures
        m.resolve(a, len, write) matches Ok(offset) ==> offset + len <= m.arena.len(),
        m.resolve(a, len, write) is Ok ==> m.resolve(a, len, false) == m.resolve(a, len, write),
{
    lemma_find_bound(m, a, 0);
    if m.find(a) is Some {
        assert(m.region_valid(m.find(a)->0 as int));
    }
}

/// A write that succeeds is read back, and leaves the mapping as it was.
pub proof fn law_read_after_write(m: MemoryModel, a: u64, data: Seq<u8>)
    requires
        m.valid(),
        m.resolve(a, data.len(), true) is Ok,
    ensures
        m.write_bytes(a, data).read_bytes(a, data.len()) == Ok::<Seq<u8>, MemoryError>(data),
{
    let n = m.write_bytes(a, data);
    lemma_resolve_bound(m, a, data.len(), true);
    lemma_write_keeps_mapping(m, a, data);
    assert(n.resolve(a, data.len(), false) == m.resolve(a, data.len(), false));
    assert(n.bytes_at(a, data.len()) =~= data);
}

/// Memory after a write maps what it mapped before.
pub proof fn lemma_write_keeps_mapping(m: MemoryModel, a: u64, data: Seq<u8>)
    requires
        m.valid(),
    ensures
        forall|b: u64, len: nat, write: bool| #[trigger]
            m.write_bytes(a, data).resolve(b, len, write) == m.resolve(b, len, write),
        m.write_bytes(a, data).arena.len() == m.arena.len(),
{
    let n = m.write_bytes(a, data);
    lemma_find_bound(m, a, 0);
    lemma_touched_keeps_mapping(m, n);
}

/// A write changes no byte outside the range that it resolves to.
pub proof fn law_write_leaves_rest(m: MemoryModel, a: u64, data: Seq<u8>, b: u64, len: nat)
    requires
        m.valid(),
        m.resolve(a, data.len(), true) is Ok,
        m.resolve(b, len, false) is Ok,
        ({
            let written = m.resolve(a, data.len(), true)->Ok_0;
            let read = m.resolve(b, len, false)->Ok_0;
            read + len <= written || written + data.len() <= read
        }),
    ensures
        m.write_bytes(a, data).read_bytes(b, len) == m.read_bytes(b, len),
{
    let n = m.write_bytes(a, data);
    lemma_resolve_bound(m, b, len, false);
    lemma_write_keeps_mapping(m, a, data);
    assert(n.resolve(b, len, false) == m.resolve(b, len, false));
    assert(n.bytes_at(b, len) =~= m.bytes_at(b, len));
}

/// The bytes of two RAM regions lie apart in the arena.
pub proof fn law_regions_do_not_alias(m: MemoryModel, i: int, j: int)
    requires
        m.valid(),
        0 <= i < m.regions.len(),
        0 <= j < m.regions.len(),
        i != j,
        m.regions[i].kind is Ram,
        m.regions[j].kind is Ram,
    ensures
        m.region_end(i) <= m.regions[j].kind->offset || m.region_end(j)
            <= m.regions[i].kind->offset,
{
}

proof fn lemma_bits(word: u32, a: u32, b: u32)
    requires
        a < 32,
        b < 32,
    ensures
        (word | (1u32 << a)) & (1u32 << a) != 0,
        a != b ==> ((word | (1u32 << a)) & (1u32 << b) != 0) == (word & (1u32 << b) != 0),
        (word & !(1u32 << a)) & (1u32 << a) == 0,
        a != b ==> ((word & !(1u32 << a)) & (1u32 << b) != 0) == (word & (1u32 << b) != 0),
{
    assert((word | (1u32 << a)) & (1u32 << a) != 0 && (word & !(1u32 << a)) & (1u32 << a) == 0 && (a
        != b ==> ((word | (1u32 << a)) & (1u32 << b) != 0) == (word & (1u32 << b) != 0) && ((word
        & !(1u32 << a)) & (1u32 << b) != 0) == (word & (1u32 << b) != 0))) by (bit_vector)
        requires
            a < 32,
            b < 32,
    ;
}

/// Marking and clearing a page concern that page alone.
pub proof fn lemma_page_bits(words: Seq<u32>, page: nat, other: nat)
    requires
        page / 32 < words.len(),
        other / 32 < words.len(),
    ensures
        page_is_dirty(page_marked(words, page), other) == (page == other || page_is_dirty(
            words,
            other,
        )),
        page_is_dirty(page_cleared(words, page), other) == (page != other && page_is_dirty(
            words,
            other,
        )),
{
    let w = words[(other / 32) as int];
    lemma_bits(w, (page % 32) as u32, (other % 32) as u32);
    if page / 32 == other / 32 {
        assert(page == other <==> page % 32 == other % 32);
    }
}

/// A recorded write marks exactly the pages of its range.
pub proof fn law_write_marks_its_pages(words: Seq<u32>, first: nat, last: nat, page: nat)
    requires
        first <= last,
        last / 32 < words.len(),
        page / 32 < words.len(),
    ensures
        pages_marked(words, first, last).len() == words.len(),
        page_is_dirty(pages_marked(words, first, last), page) == (first <= page <= last
            || page_is_dirty(words, page)),
    decreases last - first,
{
    if first >= last {
        lemma_page_bits(words, first, page);
    } else {
        law_write_marks_its_pages(words, first, (last - 1) as nat, page);
        lemma_page_bits(pages_marked(words, first, (last - 1) as nat), last, page);
    }
}

/// Replacing a bitmap by one of the same length keeps the map.
pub proof fn lemma_bitmap_follows(m: MemoryModel, i: int, words: Seq<u32>)
    requires
        m.valid(),
        0 <= i < m.regions.len(),
        m.regions[i].kind matches KindModel::Ram { dirty, .. } && dirty is Some,
        words.len() == m.regions[i].kind->dirty->0.len(),
    ensures
        (MemoryModel {
            regions: m.regions.update(i, with_bitmap(m.regions[i], words)),
            ..m
        }).follows(m),
{
    let n = MemoryModel { regions: m.regions.update(i, with_bitmap(m.regions[i], words)), ..m };
    lemma_bitmap_keeps_valid(m, i, words);
    reveal(MemoryModel::layout);
    assert(unmarked(n.regions[i]) == unmarked(m.regions[i]));
    assert(n.layout() =~= m.layout());
}

/// A lookup keeps the map.
pub proof fn lemma_accessed_follows(m: MemoryModel, a: u64, len: nat, write: bool)
    requires
        m.valid(),
    ensures
        m.accessed(a, len, write).follows(m),
{
    lemma_find_bound(m, a, 0);
    if write && m.resolve(a, len, write) is Ok {
        let i = m.find(a)->0 as int;
        let region = m.regions[i];
        if region.kind->dirty is Some && len > 0 {
            let words = region.kind->dirty->0;
            let first = ((a - region.base) / 4096) as nat;
            let last = ((a - region.base + len - 1) / 4096) as nat;
            assert(m.region_valid(i));
            lemma_pages_marked_len(words, first, last);
            lemma_bitmap_follows(m, i, pages_marked(words, first, last));
        }
    }
}

/// A write keeps the map.
pub proof fn lemma_write_follows(m: MemoryModel, a: u64, data: Seq<u8>)
    requires
        m.valid(),
    ensures
        m.write_bytes(a, data).follows(m),
{
    lemma_resolve_bound(m, a, data.len(), true);
    lemma_accessed_follows(m, a, data.len(), true);
    if m.resolve(a, data.len(), true) is Ok {
        reveal(MemoryModel::layout);
        lemma_arena_keeps_valid(m.touched(a, data.len()), m.write_bytes(a, data).arena);
    }
}

proof fn lemma_pages_marked_len(words: Seq<u32>, first: nat, last: nat)
    requires
        first <= last,
        last / 32 < words.len(),
    ensures
        pages_marked(words, first, last).len() == words.len(),
    decreases last - first,
{
    if first < last {
        lemma_pages_marked_len(words, first, (last - 1) as nat);
    }
}

/// A call that changes memory. `Store` changes bytes behind its back.
pub enum MemoryStep {
    AddRam { base: u64, len: u64, flags: RamFlags },
    AddDevice { base: u64, len: u64, widths: DeviceWidths, enabled: bool },
    Store { arena: Seq<u8> },
    Write { address: u64, data: Seq<u8> },
    Lookup { address: u64, len: nat },
    Take { id: nat },
    Clear { id: nat, byte_offset: u64 },
    Remap { id: nat, base: u64, enabled: bool },
}

impl MemoryModel {
    /// Memory after a call.
    pub open spec fn stepped(self, step: MemoryStep) -> MemoryModel {
        match step {
            MemoryStep::AddRam { base, len, flags } => self.ram_added(base, len, flags).1,
            MemoryStep::AddDevice { base, len, widths, enabled } => self.device_added(
                base,
                len,
                widths,
                enabled,
            ).1,
            MemoryStep::Store { arena } => if arena.len() == self.arena.len() {
                MemoryModel { arena, ..self }
            } else {
                self
            },
            MemoryStep::Write { address, data } => self.write_bytes(address, data),
            MemoryStep::Lookup { address, len } => self.accessed(address, len, true),
            MemoryStep::Take { id } => self.bitmap_taken(id).1,
            MemoryStep::Clear { id, byte_offset } => self.page_forgotten(id, byte_offset).1,
            MemoryStep::Remap { id, base, enabled } => self.remapped(id, base, enabled).1,
        }
    }

    /// Memory after some calls.
    pub open spec fn after_steps(self, steps: Seq<MemoryStep>) -> MemoryModel
        decreases steps.len(),
    {
        if steps.len() == 0 {
            self
        } else {
            self.after_steps(steps.drop_last()).stepped(steps.last())
        }
    }

    /// Whether a write of `len` bytes succeeds and reaches page `page` of
    /// region `id`.
    pub open spec fn reaches(self, address: u64, len: nat, id: nat, page: nat) -> bool {
        let base = self.regions[id as int].base;
        &&& self.resolve(address, len, true) is Ok
        &&& self.find(address) == Some(id)
        &&& len > 0
        &&& (address - base) / 4096 <= page <= (address - base + len - 1) / 4096
    }

    /// Whether a call writes to a page, or looks it up for writing.
    pub open spec fn touches(self, step: MemoryStep, id: nat, page: nat) -> bool {
        match step {
            MemoryStep::Write { address, data } => self.reaches(address, data.len(), id, page),
            MemoryStep::Lookup { address, len } => self.reaches(address, len, id, page),
            _ => false,
        }
    }

    /// Whether call `k` touches a page that no later call forgets.
    pub open spec fn written_at(self, steps: Seq<MemoryStep>, k: int, id: nat, page: nat) -> bool {
        &&& 0 <= k < steps.len()
        &&& self.after_steps(steps.take(k)).touches(steps[k], id, page)
        &&& kept(steps, k + 1, id, page)
    }

    /// Whether region `id` is RAM that records written pages.
    pub open spec fn records(self, id: nat) -> bool {
        &&& id < self.regions.len()
        &&& self.regions[id as int].kind is Ram
        &&& self.regions[id as int].kind->dirty is Some
    }

    /// Whether a page of region `id` is recorded as written.
    pub open spec fn recorded(self, id: nat, page: nat) -> bool {
        page_is_dirty(self.regions[id as int].kind->dirty->0, page)
    }
}

/// Whether a call takes the bitmap of region `id`, or clears the bit of a page.
pub open spec fn forgets(step: MemoryStep, id: nat, page: nat) -> bool {
    match step {
        MemoryStep::Take { id: taken } => taken == id,
        MemoryStep::Clear { id: cleared, byte_offset } => cleared == id && byte_offset / 4096
            == page,
        _ => false,
    }
}

/// Whether no call from `from` on forgets a page.
pub open spec fn kept(steps: Seq<MemoryStep>, from: int, id: nat, page: nat) -> bool {
    forall|j: int| from <= j < steps.len() ==> !forgets(#[trigger] steps[j], id, page)
}

proof fn lemma_reached(m: MemoryModel, address: u64, len: nat, id: nat, page: nat)
    requires
        m.valid(),
        m.records(id),
        page * 4096 < m.regions[id as int].original_len,
    ensures
        ({
            let n = m.accessed(address, len, true);
            &&& n.recorded(id, page) == (m.reaches(address, len, id, page) || m.recorded(id, page))
            &&& n.records(id)
            &&& n.regions[id as int].original_len == m.regions[id as int].original_len
        }),
{
    lemma_find_bound(m, address, 0);
    assert(m.region_valid(id as int));
    if m.resolve(address, len, true) is Ok && m.find(address) == Some(id) && len > 0 {
        let region = m.regions[id as int];
        let words = region.kind->dirty->0;
        let first = ((address - region.base) / 4096) as nat;
        let last = ((address - region.base + len - 1) / 4096) as nat;
        law_write_marks_its_pages(words, first, last, page);
    }
}

proof fn lemma_step_records(m: MemoryModel, step: MemoryStep, id: nat, page: nat)
    requires
        m.valid(),
        m.records(id),
        page * 4096 < m.regions[id as int].original_len,
    ensures
        ({
            let n = m.stepped(step);
            &&& n.valid()
            &&& n.records(id)
            &&& n.regions[id as int].original_len == m.regions[id as int].original_len
            &&& n.recorded(id, page) == (m.touches(step, id, page) || m.recorded(id, page)
                && !forgets(step, id, page))
        }),
{
    assert(m.region_valid(id as int));
    match step {
        MemoryStep::AddRam { base, len, flags } => {
            lemma_ram_added(m, base, len, flags);
        },
        MemoryStep::AddDevice { base, len, widths, enabled } => {
            lemma_device_added(m, base, len, widths, enabled);
        },
        MemoryStep::Store { arena } => {
            if arena.len() == m.arena.len() {
                lemma_arena_keeps_valid(m, arena);
            }
        },
        MemoryStep::Write { address, data } => {
            lemma_write_follows(m, address, data);
            lemma_reached(m, address, data.len(), id, page);
        },
        MemoryStep::Lookup { address, len } => {
            lemma_accessed_follows(m, address, len, true);
            lemma_reached(m, address, len, id, page);
        },
        MemoryStep::Take { id: taken } => {
            if m.records(taken) {
                let words = m.regions[taken as int].kind->dirty->0;
                let clean = Seq::new(words.len(), |i: int| 0u32);
                assert(m.region_valid(taken as int));
                lemma_bitmap_follows(m, taken as int, clean);
                let bit = 1u32 << ((page % 32) as u32);
                assert(0u32 & bit == 0) by (bit_vector);
            }
        },
        MemoryStep::Clear { id: cleared, byte_offset } => {
            if m.records(cleared) && byte_offset < m.regions[cleared as int].original_len {
                let words = m.regions[cleared as int].kind->dirty->0;
                let other = (byte_offset / 4096) as nat;
                assert(m.region_valid(cleared as int));
                lemma_bitmap_follows(m, cleared as int, page_cleared(words, other));
                if cleared == id {
                    lemma_page_bits(words, other, page);
                }
            }
        },
        MemoryStep::Remap { id: moved, base, enabled } => {
            lemma_remapped_keeps_valid(m, moved, base, enabled);
        },
    }
}

proof fn lemma_kept(steps: Seq<MemoryStep>, from: int, id: nat, page: nat)
    requires
        0 <= from < steps.len(),
    ensures
        kept(steps, from, id, page) == (kept(steps.drop_last(), from, id, page) && !forgets(
            steps.last(),
            id,
            page,
        )),
{
    let earlier = steps.drop_last();
    if kept(steps, from, id, page) {
        assert(!forgets(steps[steps.len() - 1], id, page));
        assert forall|j: int| from <= j < earlier.len() implies !forgets(
            #[trigger] earlier[j],
            id,
            page,
        ) by {
            assert(!forgets(steps[j], id, page));
        }
    }
    if kept(earlier, from, id, page) && !forgets(steps.last(), id, page) {
        assert forall|j: int| from <= j < steps.len() implies !forgets(
            #[trigger] steps[j],
            id,
            page,
        ) by {
            if j < earlier.len() {
                assert(!forgets(earlier[j], id, page));
            }
        }
    }
}

/// After any calls, a page counts as written exactly if one of them reached it
/// with a write that succeeded, or it counted as written before them, and since
/// then its region's bitmap was not taken and its bit was not cleared.
pub proof fn law_written_pages_are_recorded(
    m: MemoryModel,
    steps: Seq<MemoryStep>,
    id: nat,
    page: nat,
)
    requires
        m.valid(),
        m.records(id),
        page * 4096 < m.regions[id as int].original_len,
    ensures
        m.after_steps(steps).valid(),
        m.after_steps(steps).records(id),
        m.after_steps(steps).regions[id as int].original_len
            == m.regions[id as int].original_len,
        m.after_steps(steps).recorded(id, page) <==> {
            ||| m.recorded(id, page) && kept(steps, 0, id, page)
            ||| exists|k: int| #[trigger] m.written_at(steps, k, id, page)
        },
    decreases steps.len(),
{
    if steps.len() > 0 {
        let earlier = steps.drop_last();
        let last = steps.len() - 1;
        let before = m.after_steps(earlier);
        law_written_pages_are_recorded(m, earlier, id, page);
        lemma_step_records(before, steps.last(), id, page);
        assert(steps.take(last) =~= earlier);
        assert forall|k: int| 0 <= k < last implies #[trigger] steps.take(k) == earlier.take(
            k,
        ) by {
            assert(steps.take(k) =~= earlier.take(k));
        }
        lemma_kept(steps, 0, id, page);
        assert forall|k: int| 0 <= k < last implies #[trigger] m.written_at(steps, k, id, page) == (
        m.written_at(earlier, k, id, page) && !forgets(steps.last(), id, page)) by {
            assert(steps.take(k) == earlier.take(k));
            lemma_kept(steps, k + 1, id, page);
        }
        if before.touches(steps.last(), id, page) {
            assert(m.written_at(steps, last, id, page));
        }
        if exists|k: int| #[trigger] m.written_at(earlier, k, id, page) {
            let k = choose|k: int| #[trigger] m.written_at(earlier, k, id, page);
            assert(m.written_at(steps, k, id, page) == !forgets(steps.last(), id, page));
        }
        if exists|k: int| #[trigger] m.written_at(steps, k, id, page) {
            let k = choose|k: int| #[trigger] m.written_at(steps, k, id, page);
            if k < last {
                assert(m.written_at(earlier, k, id, page));
            }
        }
    }
}

/// A new region that records written pages starts with none, and leaves every
/// older region as it was.
pub proof fn law_new_region_has_no_written_page(
    m: MemoryModel,
    base: u64,
    len: u64,
    flags: RamFlags,
    page: nat,
)
    requires
        m.valid(),
        m.ram_added(base, len, flags).0 is Ok,
    ensures
        ({
            let id = m.regions.len();
            let after = m.ram_added(base, len, flags).1;
            &&& m.ram_added(base, len, flags).0 == Ok::<RegionId, MemoryError>(
                RegionId(id as usize),
            )
            &&& after.records(id) <==> flags.has(DIRTY_TRACKING_BIT)
            &&& after.records(id) && page * 4096 < len ==> !after.recorded(id, page)
            &&& forall|i: int|
                0 <= i < m.regions.len() ==> (#[trigger] after.regions[i]) == m.regions[i]
        }),
{
    let bit = 1u32 << ((page % 32) as u32);
    assert(0u32 & bit == 0) by (bit_vector);
}

/// The snapshot of a region holds the record of its pages, and asks for an
/// invalidation of the whole region exactly if a page is recorded and the
/// region is mapped. A snapshot right behind it is blank and asks for none.
pub proof fn law_snapshot_reports_and_clears(m: MemoryModel, id: nat)
    requires
        m.valid(),
        m.records(id),
    ensures
        ({
            let region = m.regions[id as int];
            let words = region.kind->dirty->0;
            let (r, after) = m.bitmap_taken(id);
            let (again, last) = after.bitmap_taken(id);
            &&& r matches Ok((taken, invalidation))
            &&& taken == words
            &&& invalidation is Some <==> region.mapped_len != 0 && exists|page: nat|
                page < words.len() * 32 && #[trigger] m.recorded(id, page)
            &&& invalidation is Some ==> invalidation == stale_range(region)
            &&& again == Ok::<(Seq<u32>, Option<Invalidation>), MemoryError>(
                (Seq::new(words.len(), |i: int| 0u32), None),
            )
            &&& last == after
        }),
{
    let words = m.regions[id as int].kind->dirty->0;
    let (r, after) = m.bitmap_taken(id);
    assert(after.bitmap_taken(id).1.regions =~= after.regions);
    if exists|i: int| 0 <= i < words.len() && #[trigger] words[i] != 0 {
        let i = choose|i: int| 0 <= i < words.len() && #[trigger] words[i] != 0;
        let bit = lemma_some_bit(words[i]);
        let page = (i * 32 + bit) as nat;
        assert(page / 32 == i && page % 32 == bit);
        assert(m.recorded(id, page));
    }
    if exists|page: nat| page < words.len() * 32 && #[trigger] m.recorded(id, page) {
        let page = choose|page: nat| page < words.len() * 32 && #[trigger] m.recorded(id, page);
        let bit = 1u32 << ((page % 32) as u32);
        assert(0u32 & bit == 0) by (bit_vector);
        assert(words[(page / 32) as int] != 0);
    }
}

/// Of two snapshots of a region, whatever calls lie between, the second holds
/// exactly the pages that one of those calls reached with a write that succeeded
/// and that were not forgotten since.
pub proof fn law_snapshot_holds_pages_written_since(
    m: MemoryModel,
    steps: Seq<MemoryStep>,
    id: nat,
    page: nat,
)
    requires
        m.valid(),
        m.records(id),
        page * 4096 < m.regions[id as int].original_len,
    ensures
        ({
            let since = m.bitmap_taken(id).1;
            let (r, _) = since.after_steps(steps).bitmap_taken(id);
            &&& r matches Ok((words, _))
            &&& words.len() == bitmap_words(m.regions[id as int].original_len)
            &&& page_is_dirty(words, page) <==> exists|k: int| #[trigger]
                since.written_at(steps, k, id, page)
        }),
{
    let since = m.bitmap_taken(id).1;
    lemma_step_records(m, MemoryStep::Take { id }, id, page);
    law_written_pages_are_recorded(since, steps, id, page);
    assert(since.after_steps(steps).region_valid(id as int));
}

proof fn lemma_some_bit(word: u32) -> (bit: u32)
    requires
        word != 0,
    ensures
        bit < 32,
        word & (1u32 << bit) != 0,
    decreases word,
{
    if word & 1 != 0 {
        assert(1u32 << 0u32 == 1) by (bit_vector);
        0
    } else {
        let half = word >> 1;
        assert(half < word && half != 0) by (bit_vector)
            requires
                half == word >> 1,
                word & 1 == 0,
                word != 0,
        ;
        let bit = lemma_some_bit(half);
        let next = (bit + 1) as u32;
        assert(next < 32 && word & (1u32 << next) != 0) by (bit_vector)
            requires
                half == word >> 1,
                bit < 32,
                half & (1u32 << bit) != 0,
                next == bit + 1,
        ;
        next
    }
}

} // verus!
