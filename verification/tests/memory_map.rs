//! Guest memory.

use riscbox::guest_memory::{GuestMemory, MemoryAccess};
use riscbox::memory::{
    AccessWidth, DeviceWidths, GuestAddress, MemoryError, PhysicalMemory, RamFlags, RegionId,
};

fn map() -> (PhysicalMemory, RegionId, RegionId, RegionId) {
    let mut memory = PhysicalMemory::new();
    let ram = memory
        .register_ram(GuestAddress(0x1000), 0x4000, RamFlags::dirty_tracking())
        .unwrap();
    let rom = memory
        .register_ram(GuestAddress(0x10000), 0x1000, RamFlags::rom())
        .unwrap();
    let device = memory
        .register_device(GuestAddress(0x20000), 0x100, DeviceWidths::u32(), true)
        .unwrap();
    (memory, ram, rom, device)
}

#[test]
fn reads_give_back_writes() {
    let (mut memory, ..) = map();
    let at = GuestAddress(0x1ffe);
    memory.write(at, AccessWidth::Word, 0x1_aabb_ccdd).unwrap();
    assert_eq!(memory.read(at, AccessWidth::Word), Ok(0xaabb_ccdd));
    assert_eq!(memory.read(GuestAddress(0x2000), AccessWidth::Byte), Ok(0xbb));
    assert_eq!(memory.read(GuestAddress(0x2002), AccessWidth::DoubleWord), Ok(0));
    memory.write_bytes(at, b"xyz").unwrap();
    assert_eq!(memory.read_bytes(at, 4), Ok(vec![b'x', b'y', b'z', 0xaa]));
}

#[test]
fn accesses_outside_ram_are_refused() {
    let (mut memory, ..) = map();
    let end = GuestAddress(0x4ffe);
    assert_eq!(memory.read(end, AccessWidth::Word), Err(MemoryError::Unmapped(end)));
    let rom = GuestAddress(0x10000);
    assert_eq!(memory.read(rom, AccessWidth::HalfWord), Ok(0));
    assert_eq!(memory.write(rom, AccessWidth::HalfWord, 1), Err(MemoryError::ReadOnly));
    assert_eq!(
        memory.read(GuestAddress(0x20000), AccessWidth::Word),
        Err(MemoryError::WrongRegionKind)
    );
    let mut guest = GuestMemory { physical: memory };
    assert_eq!(
        MemoryAccess::write(&mut guest, rom, AccessWidth::HalfWord, 1),
        Err(MemoryError::Unmapped(rom))
    );
    assert_eq!(MemoryAccess::read(&mut guest, rom, AccessWidth::HalfWord), Ok(0));
}

#[test]
fn writes_mark_their_pages() {
    let (mut memory, ram, rom, device) = map();
    assert_eq!(memory.take_dirty_pages(ram).unwrap().words, [0]);
    memory.write(GuestAddress(0x1ffe), AccessWidth::Word, 1).unwrap();
    let snapshot = memory.take_dirty_pages(ram).unwrap();
    assert_eq!(snapshot.words, [3]);
    assert!(snapshot.invalidation.is_some());
    assert_eq!(memory.take_dirty_pages(ram).unwrap().words, [0]);
    memory.write(GuestAddress(0x4000), AccessWidth::Byte, 1).unwrap();
    memory.clear_dirty_page(ram, 0x3000).unwrap();
    assert_eq!(memory.take_dirty_pages(ram).unwrap().words, [0]);
    assert_eq!(memory.take_dirty_pages(device), Err(MemoryError::WrongRegionKind));
    assert_eq!(memory.take_dirty_pages(RegionId(9)), Err(MemoryError::InvalidRegion(9)));
    assert_eq!(memory.ram_flags(rom), Ok(RamFlags::rom()));
    assert_eq!(memory.device_widths(device), Ok(DeviceWidths::u32()));
    assert_eq!(memory.device_widths(rom), Err(MemoryError::WrongRegionKind));
}

#[test]
fn regions_are_checked() {
    let mut memory = PhysicalMemory::new();
    let flags = RamFlags::default();
    for len in [0, 0x1001] {
        assert_eq!(
            memory.register_ram(GuestAddress(0), len, flags),
            Err(MemoryError::InvalidRamSize(len))
        );
    }
    for index in 0..32 {
        memory
            .register_ram(GuestAddress(0x1000 * index), 0x1000, flags)
            .unwrap();
    }
    assert_eq!(
        memory.register_ram(GuestAddress(0), 0x1000, flags),
        Err(MemoryError::RegionLimit)
    );
}

#[test]
fn regions_move() {
    let (mut memory, ram, ..) = map();
    memory.write(GuestAddress(0x1000), AccessWidth::Byte, 7).unwrap();
    memory.set_mapping(ram, GuestAddress(0x40000), true).unwrap();
    assert_eq!(memory.read(GuestAddress(0x40000), AccessWidth::Byte), Ok(7));
    assert_eq!(memory.region_at(GuestAddress(0x1000)), None);
    memory.set_mapping(ram, GuestAddress(0x40000), false).unwrap();
    assert_eq!(memory.region_at(GuestAddress(0x40000)), None);
}

#[test]
fn devices_have_no_pages_to_clear() {
    let (mut memory, _, rom, device) = map();
    for offset in [0, 0xff, 0x100, u64::MAX] {
        assert_eq!(memory.clear_dirty_page(device, offset), Err(MemoryError::WrongRegionKind));
    }
    assert_eq!(memory.clear_dirty_page(rom, u64::MAX), Ok(None));
    assert_eq!(memory.clear_dirty_page(RegionId(9), 0), Err(MemoryError::InvalidRegion(9)));
}

#[test]
fn pages_are_recorded_since_the_last_snapshot() {
    let (mut memory, ram, ..) = map();
    memory.write(GuestAddress(0x1000), AccessWidth::Byte, 1).unwrap();
    memory.ram_range(GuestAddress(0x2fff), 2, true).unwrap();
    memory.ram_range(GuestAddress(0x4000), 1, false).unwrap();
    assert!(memory.write(GuestAddress(0x4ffe), AccessWidth::Word, 1).is_err());
    let cleared = memory.clear_dirty_page(ram, 0x1abc).unwrap().unwrap();
    assert_eq!((cleared.arena_offset.0, cleared.len), (0x1000, 0x1000));
    let snapshot = memory.take_dirty_pages(ram).unwrap();
    assert_eq!(snapshot.words, [0b101]);
    let stale = snapshot.invalidation.unwrap();
    assert_eq!((stale.arena_offset.0, stale.len), (0, 0x4000));
    let snapshot = memory.take_dirty_pages(ram).unwrap();
    assert_eq!(snapshot.words, [0]);
    assert_eq!(snapshot.invalidation, None);
    memory.write(GuestAddress(0x1000), AccessWidth::Byte, 1).unwrap();
    memory.set_mapping(ram, GuestAddress(0), false).unwrap();
    let snapshot = memory.take_dirty_pages(ram).unwrap();
    assert_eq!(snapshot.words, [1]);
    assert_eq!(snapshot.invalidation, None);
}

#[test]
fn new_regions_leave_older_pages_recorded() {
    let (mut memory, ram, ..) = map();
    memory.take_dirty_pages(ram).unwrap();
    memory.write(GuestAddress(0x2000), AccessWidth::Byte, 1).unwrap();
    let late = memory
        .register_ram(GuestAddress(0x30000), 0x2000, RamFlags::dirty_tracking())
        .unwrap();
    memory
        .register_device(GuestAddress(0x50000), 0x1000, DeviceWidths::u8(), true)
        .unwrap();
    assert_eq!(memory.take_dirty_pages(late).unwrap().words, [0]);
    memory.write(GuestAddress(0x31000), AccessWidth::Byte, 1).unwrap();
    assert_eq!(memory.take_dirty_pages(ram).unwrap().words, [2]);
    assert_eq!(memory.take_dirty_pages(late).unwrap().words, [2]);
}
