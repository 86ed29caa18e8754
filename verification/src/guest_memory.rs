//! Access to guest RAM for devices.

use vstd::prelude::*;
use crate::bytes;
use crate::memory::{
    AccessWidth, DeviceWidths, DirtySnapshot, GuestAddress, MemoryError, MemoryModel,
    PhysicalMemory, RamFlags, RegionId,
};

verus! {

/// The error that an access gives whose range is not suitable RAM.
pub open spec fn inaccessible(model: MemoryModel, address: u64, len: nat, write: bool) -> Option<
    MemoryError,
> {
    if model.resolve(address, len, write) is Ok {
        None
    } else {
        Some(MemoryError::Unmapped(GuestAddress(address)))
    }
}

/// Access to guest RAM by physical address. What an implementation holds is
/// described by its memory model.
pub trait MemoryAccess {
    spec fn model(&self) -> MemoryModel;

    /// Reads a guest value.
    ///
    /// # Errors
    /// Returns an error for an inaccessible range.
    fn read(&mut self, address: GuestAddress, width: AccessWidth) -> (r: Result<u64, MemoryError>)
        requires
            old(self).model().valid(),
        ensures
            r == (match inaccessible(old(self).model(), address.0, width.size(), false) {
                Some(error) => Err(error),
                None => old(self).model().read_value(address.0, width),
            }),
            final(self).model() == old(self).model(),
    ;

    /// Writes a guest value.
    ///
    /// # Errors
    /// Returns an error for an inaccessible or read-only range.
    fn write(&mut self, address: GuestAddress, width: AccessWidth, value: u64) -> (r: Result<
        (),
        MemoryError,
    >)
        requires
            old(self).model().valid(),
        ensures
            r == (match inaccessible(old(self).model(), address.0, width.size(), true) {
                Some(error) => Err(error),
                None => Ok::<(), MemoryError>(()),
            }),
            final(self).model() == old(self).model().write_value(address.0, width, value),
            final(self).model().follows(old(self).model()),
    ;

    /// Checks a complete guest RAM range; one checked for writing counts as
    /// written.
    ///
    /// # Errors
    /// Returns an error when the range is not suitable RAM.
    fn validate_ram(&mut self, address: GuestAddress, len: usize, write: bool) -> (r: Result<
        (),
        MemoryError,
    >)
        requires
            old(self).model().valid(),
        ensures
            r == (match inaccessible(old(self).model(), address.0, len as nat, write) {
                Some(error) => Err(error),
                None => Ok::<(), MemoryError>(()),
            }),
            final(self).model() == old(self).model().accessed(address.0, len as nat, write),
            final(self).model().follows(old(self).model()),
    ;

    /// Copies bytes out of guest RAM.
    ///
    /// # Errors
    /// Returns an error for an inaccessible range.
    fn read_bytes(&mut self, address: GuestAddress, len: usize) -> (r: Result<Vec<u8>, MemoryError>)
        requires
            old(self).model().valid(),
        ensures
            match inaccessible(old(self).model(), address.0, len as nat, false) {
                Some(error) => r matches Err(e) && e == error,
                None => r matches Ok(data) && data@ == old(self).model().bytes_at(
                    address.0,
                    len as nat,
                ),
            },
            final(self).model() == old(self).model(),
    ;

    /// Copies bytes into guest RAM.
    ///
    /// # Errors
    /// Returns an error for an inaccessible or read-only range.
    fn write_bytes(&mut self, address: GuestAddress, data: &[u8]) -> (r: Result<(), MemoryError>)
        requires
            old(self).model().valid(),
        ensures
            r == (match inaccessible(old(self).model(), address.0, data@.len(), true) {
                Some(error) => Err(error),
                None => Ok::<(), MemoryError>(()),
            }),
            final(self).model() == old(self).model().write_bytes(address.0, data@),
            final(self).model().follows(old(self).model()),
    ;
}

/// A machine's memory map as its devices see it: every refused access is
/// reported as unmapped.
pub struct GuestMemory {
    pub physical: PhysicalMemory,
}

impl View for GuestMemory {
    type V = MemoryModel;

    open spec fn view(&self) -> MemoryModel {
        self.physical@
    }
}

impl GuestMemory {
    pub fn new() -> (r: Self)
        ensures
            r@ == (MemoryModel { arena: Seq::empty(), regions: Seq::empty() }),
            r@.valid(),
    {
        GuestMemory { physical: PhysicalMemory::new() }
    }

    /// Registers an allocated RAM region.
    ///
    /// # Errors
    /// Returns an error for an invalid size or when the map has no room.
    pub fn register_ram(&mut self, base: GuestAddress, len: u64, flags: RamFlags) -> (r: Result<
        RegionId,
        MemoryError,
    >)
        requires
            old(self)@.valid(),
        ensures
            final(self)@.valid(),
            r == (if len == 0 || len % 4096 != 0 {
                Err::<RegionId, MemoryError>(MemoryError::InvalidRamSize(len))
            } else if old(self)@.regions.len() == crate::memory::MAX_REGIONS || old(self)@.arena.len() + len > u32::MAX {
                Err(MemoryError::ArenaTooLarge)
            } else {
                Ok(RegionId(old(self)@.regions.len() as usize))
            }),
            final(self)@ == (if r is Ok {
                MemoryModel {
                    arena: old(self)@.arena + Seq::new(len as nat, |i: int| 0u8),
                    regions: old(self)@.regions.push(
                        crate::memory::ram_region(
                            base.0,
                            len,
                            flags,
                            old(self)@.arena.len() as u32,
                        ),
                    ),
                }
            } else {
                old(self)@
            }),
    {
        if len == 0 || len % crate::memory::PAGE_SIZE != 0 {
            return Err(MemoryError::InvalidRamSize(len));
        }
        match self.physical.register_ram(base, len, flags) {
            Ok(id) => Ok(id),
            Err(_) => Err(MemoryError::ArenaTooLarge),
        }
    }

    /// Registers a device aperture in the physical map.
    ///
    /// # Errors
    /// Returns an error when the physical map is full.
    pub fn register_device(&mut self, base: GuestAddress, len: u64, widths: DeviceWidths) -> (r:
        Result<RegionId, MemoryError>)
        requires
            old(self)@.valid(),
        ensures
            final(self)@.valid(),
            r == (if old(self)@.regions.len() == crate::memory::MAX_REGIONS || len > u32::MAX {
                Err::<RegionId, MemoryError>(MemoryError::RegionLimit)
            } else {
                Ok(RegionId(old(self)@.regions.len() as usize))
            }),
            final(self)@ == (if r is Ok {
                MemoryModel {
                    regions: old(self)@.regions.push(
                        crate::memory::RegionModel {
                            base: base.0,
                            original_len: len,
                            mapped_len: len,
                            kind: crate::memory::KindModel::Device { widths },
                        },
                    ),
                    ..old(self)@
                }
            } else {
                old(self)@
            }),
    {
        match self.physical.register_device(base, len, widths, true) {
            Ok(id) => Ok(id),
            Err(_) => Err(MemoryError::RegionLimit),
        }
    }

    /// Resolves a complete guest RAM range to its arena offset.
    ///
    /// # Errors
    /// Returns an error when the range is unmapped or read-only for a write.
    pub fn ram_range(&mut self, address: GuestAddress, len: usize, write: bool) -> (r: Result<
        usize,
        MemoryError,
    >)
        requires
            old(self)@.valid(),
        ensures
            match inaccessible(old(self)@, address.0, len as nat, write) {
                Some(error) => r == Err::<usize, MemoryError>(error),
                None => r matches Ok(offset) && offset == old(self)@.resolve(
                    address.0,
                    len as nat,
                    write,
                )->Ok_0 && offset + len <= old(self)@.arena.len(),
            },
            final(self)@ == old(self)@.accessed(address.0, len as nat, write),
            final(self)@.arena == old(self)@.arena,
            final(self)@.follows(old(self)@),
    {
        proof {
            crate::memory::lemma_accessed_follows(self@, address.0, len as nat, write);
        }
        match self.physical.ram_range(address, len, write) {
            Ok(offset) => Ok(offset.0 as usize),
            Err(_) => Err(MemoryError::Unmapped(address)),
        }
    }

    /// Views a complete guest RAM range.
    ///
    /// # Errors
    /// Returns an error when the range is unmapped.
    pub fn ram_view(&self, address: GuestAddress, len: usize) -> (r: Result<&[u8], MemoryError>)
        requires
            self@.valid(),
        ensures
            match inaccessible(self@, address.0, len as nat, false) {
                Some(error) => r matches Err(e) && e == error,
                None => r matches Ok(data) && data@ == self@.bytes_at(address.0, len as nat),
            },
    {
        match self.physical.view_range(address, len) {
            Ok(offset) => {
                proof {
                    crate::memory::lemma_resolve_bound(self@, address.0, len as nat, false);
                }
                Ok(vstd::slice::slice_subrange(self.physical.arena(), offset, offset + len))
            },
            Err(_) => Err(MemoryError::Unmapped(address)),
        }
    }

    /// Returns and clears the active dirty-page bitmap.
    ///
    /// # Errors
    /// Returns an error for an invalid or non-RAM region.
    pub fn take_dirty_pages(&mut self, id: RegionId) -> (r: Result<DirtySnapshot, MemoryError>)
        requires
            old(self)@.valid(),
        ensures
            final(self)@.valid(),
            (id.0 >= old(self)@.regions.len() || old(self)@.regions[id.0 as int].kind is Device)
                ==> (r matches Err(error) && error == MemoryError::InvalidRegion(id.0)) && final(self)@ == old(self)@,
            (id.0 < old(self)@.regions.len() && old(self)@.regions[id.0 as int].kind is Ram) ==> {
                let region = old(self)@.regions[id.0 as int];
                &&& r matches Ok(snapshot)
                &&& snapshot.invalidation is None
                &&& match region.kind->dirty {
                    Some(words) => {
                        &&& snapshot.words@ == words
                        &&& final(self)@ == (MemoryModel {
                            regions: old(self)@.regions.update(
                                id.0 as int,
                                crate::memory::with_bitmap(
                                    region,
                                    Seq::new(words.len(), |i: int| 0u32),
                                ),
                            ),
                            ..old(self)@
                        })
                    },
                    None => snapshot.words@ == Seq::<u32>::empty() && final(self)@ == old(self)@,
                }
            },
    {
        match self.physical.take_dirty_pages(id) {
            Ok(snapshot) => Ok(DirtySnapshot { words: snapshot.words, invalidation: None }),
            Err(_) => Err(MemoryError::InvalidRegion(id.0)),
        }
    }

    /// Clears the dirty bit for one guest page.
    ///
    /// # Errors
    /// Returns an error for an invalid region or offset.
    pub fn clear_dirty_page(&mut self, id: RegionId, offset: u64) -> (r: Result<(), MemoryError>)
        requires
            old(self)@.valid(),
        ensures
            final(self)@.valid(),
            r == (if id.0 < old(self)@.regions.len() && old(self)@.regions[id.0 as int].kind is Ram
                && offset < old(self)@.regions[id.0 as int].original_len {
                Ok::<(), MemoryError>(())
            } else {
                Err(MemoryError::InvalidRegion(id.0))
            }),
            r is Err ==> final(self)@ == old(self)@,
            r is Ok ==> final(self)@ == (match old(self)@.regions[id.0 as int].kind->dirty {
                Some(words) => MemoryModel {
                    regions: old(self)@.regions.update(
                        id.0 as int,
                        crate::memory::with_bitmap(
                            old(self)@.regions[id.0 as int],
                            crate::memory::page_cleared(words, (offset / 4096) as nat),
                        ),
                    ),
                    ..old(self)@
                },
                None => old(self)@,
            }),
    {
        if id.0 >= self.physical.regions.len() {
            return Err(MemoryError::InvalidRegion(id.0));
        }
        if offset >= self.physical.regions[id.0].original_len {
            return Err(MemoryError::InvalidRegion(id.0));
        }
        match self.physical.clear_dirty_page(id, offset) {
            Ok(_) => Ok(()),
            Err(_) => Err(MemoryError::InvalidRegion(id.0)),
        }
    }
}

/// The memory map that devices see is the physical one.
proof fn lemma_model(memory: &GuestMemory)
    ensures
        memory.model() == memory.physical@,
{
}

impl MemoryAccess for GuestMemory {
    open spec fn model(&self) -> MemoryModel {
        self.physical@
    }

    fn read(&mut self, address: GuestAddress, width: AccessWidth) -> (r: Result<u64, MemoryError>) {
        proof {
            lemma_model(self);
        }
        match self.physical.read(address, width) {
            Ok(value) => Ok(value),
            Err(_) => Err(MemoryError::Unmapped(address)),
        }
    }

    fn write(&mut self, address: GuestAddress, width: AccessWidth, value: u64) -> (r: Result<
        (),
        MemoryError,
    >) {
        proof {
            let data = bytes::le_bytes(value as nat, width.size());
            bytes::lemma_le_bytes_len(value as nat, width.size());
            crate::memory::lemma_write_follows(self@, address.0, data);
        }
        match self.physical.write(address, width, value) {
            Ok(()) => Ok(()),
            Err(_) => Err(MemoryError::Unmapped(address)),
        }
    }

    fn validate_ram(&mut self, address: GuestAddress, len: usize, write: bool) -> (r: Result<
        (),
        MemoryError,
    >) {
        match self.ram_range(address, len, write) {
            Ok(_) => Ok(()),
            Err(error) => Err(error),
        }
    }

    fn read_bytes(&mut self, address: GuestAddress, len: usize) -> (r: Result<
        Vec<u8>,
        MemoryError,
    >) {
        match self.physical.read_bytes(address, len) {
            Ok(data) => Ok(data),
            Err(_) => Err(MemoryError::Unmapped(address)),
        }
    }

    fn write_bytes(&mut self, address: GuestAddress, data: &[u8]) -> (r: Result<(), MemoryError>) {
        proof {
            crate::memory::lemma_write_follows(self@, address.0, data@);
        }
        match self.physical.write_bytes(address, data) {
            Ok(()) => Ok(()),
            Err(_) => Err(MemoryError::Unmapped(address)),
        }
    }
}

} // verus!
