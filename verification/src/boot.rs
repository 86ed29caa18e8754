//! Placement of boot images in guest RAM.

use vstd::prelude::*;
use crate::bytes;
use crate::entropy::{EntropyError, EntropySource};
use crate::fdt::{self, BuilderModel, FdtConfig, FdtModel, FramebufferDescription};
use crate::guest_memory::MemoryAccess;
use crate::machine::{
    BootImages, BootLayout, BusModel, Host, Machine, MachineError, MachineModel, FDT_ALIGNMENT,
    FDT_MAX_OFFSET, KERNEL_OFFSET, RAM_BASE,
};
use crate::memory::{GuestAddress, MemoryError, MemoryModel};

verus! {

/// The model of the images of a boot.
#[verifier::ext_equal]
pub struct BootModel {
    pub firmware: Seq<u8>,
    pub kernel: Option<Seq<u8>>,
    pub initrd: Option<Seq<u8>>,
    pub command_line: Seq<char>,
}

/// The bytes of an image that may be missing.
pub open spec fn image_bytes(image: Option<&[u8]>) -> Option<Seq<u8>> {
    match image {
        Some(data) => Some(data@),
        None => None,
    }
}

impl<'a> View for BootImages<'a> {
    type V = BootModel;

    open spec fn view(&self) -> BootModel {
        BootModel {
            firmware: self.firmware@,
            kernel: image_bytes(self.kernel),
            initrd: image_bytes(self.initrd),
            command_line: self.command_line@,
        }
    }
}

/// Where an initrd starts in RAM: in the middle, but not above 128 MiB.
pub open spec fn initrd_offset(ram_size: u64) -> int {
    if (ram_size + 1) / 2 < 0x800_0000 {
        (ram_size + 1) / 2
    } else {
        0x800_0000
    }
}

/// The bytes of an image, of which a missing one has none.
pub open spec fn present(image: Option<Seq<u8>>) -> Seq<u8> {
    match image {
        Some(data) => data,
        None => Seq::empty(),
    }
}

impl BootModel {
    /// Where firmware and kernel end in RAM.
    pub open spec fn kernel_end(self) -> int {
        match self.kernel {
            Some(kernel) => KERNEL_OFFSET + kernel.len(),
            None => self.firmware.len() as int,
        }
    }

    /// Where the initrd ends in RAM.
    pub open spec fn initrd_end(self, ram_size: u64) -> int {
        initrd_offset(ram_size) + present(self.initrd).len()
    }

    /// Why the images cannot be placed in RAM of some size, if they cannot.
    pub open spec fn fault(self, ram_size: u64) -> Option<MachineError> {
        if self.firmware.len() > ram_size {
            Some(MachineError::FirmwareTooLarge)
        } else if self.kernel is Some && self.firmware.len() > KERNEL_OFFSET {
            Some(MachineError::FirmwareOverlapsKernel)
        } else if self.kernel_end() > ram_size {
            Some(MachineError::KernelTooLarge)
        } else if self.initrd is Some && self.kernel_end() > initrd_offset(ram_size) {
            Some(MachineError::KernelOverlapsInitrd)
        } else if self.initrd_end(ram_size) > ram_size {
            Some(MachineError::InitrdTooLarge)
        } else {
            None
        }
    }

    /// Where a device tree goes: as high as possible in the first gigabyte, on
    /// a boundary of 2 MiB, and clear of the images.
    pub open spec fn tree_offset(self, ram_size: u64, len: nat) -> Option<int> {
        let limit = if ram_size < FDT_MAX_OFFSET {
            ram_size as int
        } else {
            FDT_MAX_OFFSET as int
        };
        let offset = (limit - len) / FDT_ALIGNMENT as int * FDT_ALIGNMENT;
        if len > limit || offset < self.kernel_end() || (self.initrd is Some && initrd_offset(
            ram_size,
        ) < offset + len && offset < self.initrd_end(ram_size)) {
            None
        } else {
            Some(offset)
        }
    }

    /// What goes where in memory, in the order in which it is copied.
    pub open spec fn parts(self, ram_size: u64, tree: Seq<u8>, tree_offset: int) -> Seq<
        (u64, Seq<u8>),
    > {
        let firmware = seq![(RAM_BASE, self.firmware)];
        let kernel = match self.kernel {
            Some(kernel) => seq![((RAM_BASE + KERNEL_OFFSET) as u64, kernel)],
            None => Seq::empty(),
        };
        let initrd = match self.initrd {
            Some(initrd) => seq![((RAM_BASE + initrd_offset(ram_size)) as u64, initrd)],
            None => Seq::empty(),
        };
        let fdt_address = (RAM_BASE + tree_offset) as u64;
        firmware + kernel + initrd + seq![
            (fdt_address, tree),
            (0x1000, reset_vector(fdt_address)),
        ]
    }

    /// Where the images end up.
    pub open spec fn layout(self, ram_size: u64, tree: Seq<u8>, tree_offset: int) -> BootLayout {
        BootLayout {
            firmware_address: RAM_BASE,
            kernel_address: match self.kernel {
                Some(_) => Some((RAM_BASE + KERNEL_OFFSET) as u64),
                None => None,
            },
            initrd_address: match self.initrd {
                Some(_) => Some((RAM_BASE + initrd_offset(ram_size)) as u64),
                None => None,
            },
            fdt_address: (RAM_BASE + tree_offset) as u64,
            fdt_size: tree.len() as u32,
        }
    }
}

/// The code at the reset address: it jumps to the firmware with the hart number
/// and the address of the device tree.
pub open spec fn reset_vector(fdt_address: u64) -> Seq<u8> {
    bytes::le_bytes(0x0000_0297, 4) + bytes::le_bytes(0x0182_b283, 4) + bytes::le_bytes(
        0x0000_0597,
        4,
    ) + bytes::le_bytes(0x0185_b583, 4) + bytes::le_bytes(0xf140_2573, 4) + bytes::le_bytes(
        0x0002_8067,
        4,
    ) + bytes::le_bytes(RAM_BASE as nat, 8) + bytes::le_bytes(fdt_address as nat, 8)
}

/// Memory after the parts from `i` on have been copied to it, as far as that
/// succeeds.
pub open spec fn stored(memory: MemoryModel, parts: Seq<(u64, Seq<u8>)>, i: nat) -> (
    Result<(), MachineError>,
    MemoryModel,
)
    decreases parts.len() - i,
{
    if i >= parts.len() {
        (Ok(()), memory)
    } else {
        let (address, data) = parts[i as int];
        match crate::guest_memory::inaccessible(memory, address, data.len(), true) {
            Some(error) => (Err(MachineError::Memory(error)), memory),
            None => stored(memory.write_bytes(address, data), parts, i + 1),
        }
    }
}

impl<H: Host> MachineModel<H> {
    pub open spec fn with_memory(self, memory: MemoryModel) -> MachineModel<H> {
        MachineModel { bus: BusModel { memory, ..self.bus }, ..self }
    }

    /// What the device tree of a boot describes.
    pub open spec fn described(self, images: BootModel, seed: Seq<u8>) -> FdtModel {
        FdtModel {
            ram_size: self.bus.config.ram_size,
            command_line: images.command_line,
            initrd: match images.initrd {
                Some(initrd) => Some(
                    (
                        (RAM_BASE + initrd_offset(self.bus.config.ram_size)) as u64,
                        initrd.len() as u64,
                    ),
                ),
                None => None,
            },
            virtio_count: self.bus.virtio.len() as u8,
            rng_seed: Some(seed),
            framebuffer: match self.bus.framebuffer {
                Some(display) => Some(
                    FramebufferDescription {
                        size: display.size,
                        width: display.width,
                        height: display.height,
                        stride: display.stride,
                    },
                ),
                None => None,
            },
        }
    }

    /// The machine after its boot images have been loaded, where `drawn` is
    /// what the entropy source gave for the kernel's random seed.
    pub open spec fn booted(
        self,
        images: BootModel,
        drawn: Result<Seq<u8>, EntropyError>,
    ) -> (
        Result<BootLayout, MachineError>,
        MachineModel<H>,
    ) {
        let ram_size = self.bus.config.ram_size;
        match images.fault(ram_size) {
            Some(error) => (Err(error), self),
            None => {
                let seeded = MachineModel { entropy: self.entropy.rest(), ..self };
                match drawn {
                    Err(error) => (Err(MachineError::Entropy(error)), seeded),
                    Ok(seed) => {
                        let builder = BuilderModel::tree(self.described(images, seed));
                        match images.tree_offset(ram_size, builder.size()) {
                            None => (Err(MachineError::DeviceTreeTooLarge), seeded),
                            Some(offset) => {
                                let tree = builder.finished();
                                let (r, memory) = stored(
                                    self.bus.memory,
                                    images.parts(ram_size, tree, offset),
                                    0,
                                );
                                match r {
                                    Ok(_) => (
                                        Ok(images.layout(ram_size, tree, offset)),
                                        seeded.with_memory(memory),
                                    ),
                                    Err(error) => (Err(error), seeded.with_memory(memory)),
                                }
                            },
                        }
                    },
                }
            },
        }
    }
}

fn image_len(image: Option<&[u8]>) -> (r: u64)
    ensures
        r == present(image_bytes(image)).len(),
{
    match image {
        Some(data) => data.len() as u64,
        None => 0,
    }
}

/// Checks that the images fit, and returns where the kernel ends and where the
/// initrd starts and ends.
fn place_images(images: &BootImages<'_>, ram_size: u64) -> (r: Result<(u64, u64, u64), MachineError>)
    ensures
        match r {
            Ok((kernel_end, start, end)) => images@.fault(ram_size) is None && kernel_end
                == images@.kernel_end() && start == initrd_offset(ram_size) && end
                == images@.initrd_end(ram_size),
            Err(error) => images@.fault(ram_size) == Some(error),
        },
{
    let firmware_end: u64 = images.firmware.len() as u64;
    if firmware_end > ram_size {
        return Err(MachineError::FirmwareTooLarge);
    }
    if images.kernel.is_some() && firmware_end > KERNEL_OFFSET {
        return Err(MachineError::FirmwareOverlapsKernel);
    }
    let kernel_end: u64 = if images.kernel.is_some() {
        match KERNEL_OFFSET.checked_add(image_len(images.kernel)) {
            Some(end) => end,
            None => {
                return Err(MachineError::KernelTooLarge);
            },
        }
    } else {
        firmware_end
    };
    if kernel_end > ram_size {
        return Err(MachineError::KernelTooLarge);
    }
    let half: u64 = ram_size / 2 + ram_size % 2;
    let start: u64 = if half < 0x800_0000 {
        half
    } else {
        0x800_0000
    };
    if images.initrd.is_some() && kernel_end > start {
        return Err(MachineError::KernelOverlapsInitrd);
    }
    match start.checked_add(image_len(images.initrd)) {
        Some(end) => if end > ram_size {
            Err(MachineError::InitrdTooLarge)
        } else {
            Ok((kernel_end, start, end))
        },
        None => Err(MachineError::InitrdTooLarge),
    }
}

/// Finds the place of a device tree.
fn place_tree(
    images: &BootImages<'_>,
    ram_size: u64,
    places: (u64, u64, u64),
    tree_len: u64,
) -> (r: Option<u64>)
    requires
        places.0 == images@.kernel_end(),
        places.1 == initrd_offset(ram_size),
        places.2 == images@.initrd_end(ram_size),
    ensures
        match r {
            Some(offset) => images@.tree_offset(ram_size, tree_len as nat) == Some(offset as int),
            None => images@.tree_offset(ram_size, tree_len as nat) is None,
        },
{
    let (kernel_end, start, end) = places;
    let limit: u64 = if ram_size < FDT_MAX_OFFSET {
        ram_size
    } else {
        FDT_MAX_OFFSET
    };
    if tree_len > limit {
        return None;
    }
    let offset: u64 = (limit - tree_len) / FDT_ALIGNMENT * FDT_ALIGNMENT;
    if offset < kernel_end || (images.initrd.is_some() && start < offset + tree_len && offset
        < end) {
        None
    } else {
        Some(offset)
    }
}

fn reset_code(fdt_address: u64) -> (r: Vec<u8>)
    ensures
        r@ == reset_vector(fdt_address),
{
    let mut code: Vec<u8> = bytes::to_le(0x0000_0297, 4);
    let mut part: Vec<u8> = bytes::to_le(0x0182_b283, 4);
    code.append(&mut part);
    part = bytes::to_le(0x0000_0597, 4);
    code.append(&mut part);
    part = bytes::to_le(0x0185_b583, 4);
    code.append(&mut part);
    part = bytes::to_le(0xf140_2573, 4);
    code.append(&mut part);
    part = bytes::to_le(0x0002_8067, 4);
    code.append(&mut part);
    part = bytes::to_le(RAM_BASE, 8);
    code.append(&mut part);
    part = bytes::to_le(fdt_address, 8);
    code.append(&mut part);
    code
}

impl<H: Host> Machine<H> {
    pub(crate) fn copy_to_ram(&mut self, address: u64, data: &[u8]) -> (r: Result<(), MachineError>)
        requires
            old(self)@.valid(),
        ensures
            match crate::guest_memory::inaccessible(
                old(self)@.bus.memory,
                address,
                data@.len(),
                true,
            ) {
                Some(error) => r == Err::<(), MachineError>(MachineError::Memory(error)),
                None => r == Ok::<(), MachineError>(()),
            },
            final(self)@ == old(self)@.with_memory(
                old(self)@.bus.memory.write_bytes(address, data@),
            ),
            final(self)@.valid(),
    {
        match self.bus.memory.write_bytes(GuestAddress(address), data) {
            Ok(()) => Ok(()),
            Err(error) => Err(MachineError::from(error)),
        }
    }

    /// Copies the images, the device tree and the reset code into memory.
    fn store(
        &mut self,
        images: &BootImages<'_>,
        start: u64,
        tree: &[u8],
        fdt_address: u64,
    ) -> (r: Result<(), MachineError>)
        requires
            old(self)@.valid(),
            start == initrd_offset(old(self)@.bus.config.ram_size),
            RAM_BASE <= fdt_address,
        ensures
            ({
                let (result, memory) = stored(
                    old(self)@.bus.memory,
                    images@.parts(old(self)@.bus.config.ram_size, tree@, fdt_address - RAM_BASE),
                    0,
                );
                r == result && final(self)@ == old(self)@.with_memory(memory)
            }),
            final(self)@.valid(),
    {
        let ghost parts = images@.parts(
            self.bus.config.ram_size,
            tree@,
            fdt_address - RAM_BASE,
        );
        let ghost mut i: nat = 0;
        match self.copy_to_ram(RAM_BASE, images.firmware) {
            Ok(()) => {},
            Err(error) => {
                return Err(error);
            },
        }
        proof {
            i = i + 1;
        }
        assert(stored(self@.bus.memory, parts, i) == stored(old(self)@.bus.memory, parts, 0));
        match images.kernel {
            Some(kernel) => {
                assert(parts[i as int] == ((RAM_BASE + KERNEL_OFFSET) as u64, kernel@));
                match self.copy_to_ram(RAM_BASE + KERNEL_OFFSET, kernel) {
                    Ok(()) => {},
                    Err(error) => {
                        return Err(error);
                    },
                }
                proof {
                    i = i + 1;
                }
            },
            None => {},
        }
        assert(stored(self@.bus.memory, parts, i) == stored(old(self)@.bus.memory, parts, 0));
        match images.initrd {
            Some(initrd_image) => {
                assert(parts[i as int] == ((RAM_BASE + start) as u64, initrd_image@));
                match self.copy_to_ram(RAM_BASE + start, initrd_image) {
                    Ok(()) => {},
                    Err(error) => {
                        return Err(error);
                    },
                }
                proof {
                    i = i + 1;
                }
            },
            None => {},
        }
        assert(stored(self@.bus.memory, parts, i) == stored(old(self)@.bus.memory, parts, 0));
        assert(parts[i as int] == (fdt_address, tree@));
        match self.copy_to_ram(fdt_address, tree) {
            Ok(()) => {},
            Err(error) => {
                return Err(error);
            },
        }
        proof {
            i = i + 1;
        }
        assert(stored(self@.bus.memory, parts, i) == stored(old(self)@.bus.memory, parts, 0));
        assert(parts[i as int] == (0x1000u64, reset_vector(fdt_address)));
        let code: Vec<u8> = reset_code(fdt_address);
        match self.copy_to_ram(0x1000, code.as_slice()) {
            Ok(()) => {},
            Err(error) => {
                return Err(error);
            },
        }
        assert(stored(self@.bus.memory, parts, i + 1) == (Ok::<(), MachineError>(()), self@.bus.memory));
        Ok(())
    }

    /// Loads firmware and optional kernel/initrd images and installs the reset vector and FDT.
    ///
    /// # Errors
    ///
    /// Returns an error when images overlap or do not fit in guest RAM.
    pub fn load_boot(&mut self, images: BootImages<'_>) -> (r: Result<BootLayout, MachineError>)
        requires
            old(self)@.valid(),
        ensures
            (r, final(self)@) == old(self)@.booted(images@, old(self)@.entropy.drawn(32)),
            final(self)@.valid(),
    {
        let ram_size: u64 = self.bus.config.ram_size;
        let places: (u64, u64, u64) = match place_images(&images, ram_size) {
            Ok(places) => places,
            Err(error) => {
                return Err(error);
            },
        };
        let framebuffer: Option<FramebufferDescription> = match &self.bus.framebuffer {
            Some(display) => Some(
                FramebufferDescription {
                    size: display.size,
                    width: display.width,
                    height: display.height,
                    stride: display.stride,
                },
            ),
            None => None,
        };
        let initrd: Option<(u64, u64)> = match images.initrd {
            Some(image) => Some((RAM_BASE + places.1, image.len() as u64)),
            None => None,
        };
        let mut rng_seed: Vec<u8> = bytes::zeros(32);
        match self.entropy.fill(rng_seed.as_mut_slice()) {
            Ok(()) => {},
            Err(error) => {
                return Err(MachineError::from(error));
            },
        }
        let tree: Vec<u8> = match fdt::try_build(
            FdtConfig {
                ram_size,
                command_line: images.command_line,
                initrd,
                virtio_count: self.bus.virtio.len() as u8,
                rng_seed: Some(rng_seed.as_slice()),
                framebuffer,
            },
        ) {
            Some(tree) => tree,
            None => {
                return Err(MachineError::DeviceTreeTooLarge);
            },
        };
        let tree_offset: u64 = match place_tree(&images, ram_size, places, tree.len() as u64) {
            Some(offset) => offset,
            None => {
                return Err(MachineError::DeviceTreeTooLarge);
            },
        };
        let fdt_address: u64 = RAM_BASE + tree_offset;
        match self.store(&images, places.1, tree.as_slice(), fdt_address) {
            Ok(()) => {},
            Err(error) => {
                return Err(error);
            },
        }
        Ok(
            BootLayout {
                firmware_address: RAM_BASE,
                kernel_address: match images.kernel {
                    Some(_) => Some(RAM_BASE + KERNEL_OFFSET),
                    None => None,
                },
                initrd_address: match images.initrd {
                    Some(_) => Some(RAM_BASE + places.1),
                    None => None,
                },
                fdt_address,
                fdt_size: tree.len() as u32,
            },
        )
    }
}

/// Whether parts lie in writable RAM, apart from each other.
pub open spec fn placed(memory: MemoryModel, parts: Seq<(u64, Seq<u8>)>) -> bool {
    &&& forall|i: int|
        0 <= i < parts.len() ==> #[trigger] memory.resolve(parts[i].0, parts[i].1.len(), true) is Ok
    &&& forall|i: int, j: int|
        #![trigger parts[i], parts[j]]
        0 <= i < parts.len() && 0 <= j < parts.len() && i != j ==> {
            let a = memory.resolve(parts[i].0, parts[i].1.len(), true)->Ok_0;
            let b = memory.resolve(parts[j].0, parts[j].1.len(), true)->Ok_0;
            a + parts[i].1.len() <= b || b + parts[j].1.len() <= a
        }
}

/// Parts that are placed well are all stored, and can be read back.
proof fn lemma_stored(memory: MemoryModel, parts: Seq<(u64, Seq<u8>)>, i: nat)
    requires
        memory.valid(),
        placed(memory, parts),
        i <= parts.len(),
    ensures
        stored(memory, parts, i).0 is Ok,
        forall|j: int|
            0 <= j < i ==> stored(memory, parts, i).1.read_bytes(
                (#[trigger] parts[j]).0,
                parts[j].1.len(),
            ) == memory.read_bytes(parts[j].0, parts[j].1.len()),
        forall|j: int|
            i <= j < parts.len() ==> stored(memory, parts, i).1.read_bytes(
                (#[trigger] parts[j]).0,
                parts[j].1.len(),
            ) == Ok::<Seq<u8>, MemoryError>(parts[j].1),
    decreases parts.len() - i,
{
    if i < parts.len() {
        let (address, data) = parts[i as int];
        let next = memory.write_bytes(address, data);
        assert(memory.resolve(parts[i as int].0, parts[i as int].1.len(), true) is Ok);
        crate::memory::lemma_write_follows(memory, address, data);
        crate::memory::lemma_write_keeps_mapping(memory, address, data);
        crate::memory::law_read_after_write(memory, address, data);
        assert forall|j: int| 0 <= j < parts.len() implies #[trigger] next.resolve(
            parts[j].0,
            parts[j].1.len(),
            true,
        ) is Ok by {
            assert(memory.resolve(parts[j].0, parts[j].1.len(), true) is Ok);
        }
        assert(placed(next, parts));
        lemma_stored(next, parts, i + 1);
        let end = stored(memory, parts, i).1;
        assert forall|j: int| 0 <= j < i implies end.read_bytes(
            (#[trigger] parts[j]).0,
            parts[j].1.len(),
        ) == memory.read_bytes(parts[j].0, parts[j].1.len()) by {
            assert(memory.resolve(parts[j].0, parts[j].1.len(), true) is Ok);
            crate::memory::lemma_resolve_bound(memory, parts[j].0, parts[j].1.len(), true);
            crate::memory::law_write_leaves_rest(
                memory,
                address,
                data,
                parts[j].0,
                parts[j].1.len(),
            );
        }
        assert forall|j: int| i <= j < parts.len() implies end.read_bytes(
            (#[trigger] parts[j]).0,
            parts[j].1.len(),
        ) == Ok::<Seq<u8>, MemoryError>(parts[j].1) by {
            if j == i {
                assert(end.read_bytes(parts[j].0, parts[j].1.len()) == next.read_bytes(
                    parts[j].0,
                    parts[j].1.len(),
                ));
            }
        }
    }
}

/// A machine's RAM lies at the start of its arena, and the reset RAM behind it.
proof fn lemma_ram_resolves<H: Host>(bus: BusModel<H>, offset: int, len: nat)
    requires
        bus.valid(),
        0 <= offset < bus.config.ram_size,
        offset + len <= bus.config.ram_size,
    ensures
        bus.memory.resolve((RAM_BASE + offset) as u64, len, true) == Ok::<nat, MemoryError>(
            offset as nat,
        ),
        bus.memory.resolve(0x1000, 40, true) == Ok::<nat, MemoryError>(
            (bus.config.ram_size + 0x1000) as nat,
        ),
{
    let m = bus.memory;
    crate::machine::lemma_ram_regions(bus);
    reveal_with_fuel(MemoryModel::find_from, 3);
    assert(m.find((RAM_BASE + offset) as u64) == Some(0nat));
    assert(m.find(0x1000) == Some(1nat));
}

/// Images that are placed at all lie inside RAM without overlap: firmware below
/// the kernel, both below the initrd, and the device tree on its boundary in
/// the first gigabyte, above firmware and kernel and clear of the initrd.
pub proof fn law_boot_images_are_disjoint(images: BootModel, ram_size: u64, len: nat)
    requires
        images.fault(ram_size) is None,
        images.tree_offset(ram_size, len) is Some,
    ensures
        images.firmware.len() <= images.kernel_end(),
        images.kernel is Some ==> images.firmware.len() <= KERNEL_OFFSET,
        images.initrd is Some ==> images.kernel_end() <= initrd_offset(ram_size)
            && images.initrd_end(ram_size) <= ram_size,
        ({
            let offset = images.tree_offset(ram_size, len)->0;
            &&& images.kernel_end() <= offset
            &&& offset + len <= ram_size && offset + len <= FDT_MAX_OFFSET
            &&& offset % FDT_ALIGNMENT as int == 0
            &&& images.initrd is Some ==> offset + len <= initrd_offset(ram_size)
                || images.initrd_end(ram_size) <= offset
        }),
{
}

proof fn lemma_parts_placed<H: Host>(bus: BusModel<H>, images: BootModel, tree: Seq<u8>)
    requires
        bus.valid(),
        images.fault(bus.config.ram_size) is None,
        tree.len() > 0,
        images.tree_offset(bus.config.ram_size, tree.len()) is Some,
    ensures
        placed(
            bus.memory,
            images.parts(
                bus.config.ram_size,
                tree,
                images.tree_offset(bus.config.ram_size, tree.len())->0,
            ),
        ),
{
    let ram_size = bus.config.ram_size;
    let offset = images.tree_offset(ram_size, tree.len())->0;
    let parts = images.parts(ram_size, tree, offset);
    law_boot_images_are_disjoint(images, ram_size, tree.len());
    lemma_ram_resolves(bus, 0, images.firmware.len());
    if images.kernel is Some {
        lemma_ram_resolves(bus, KERNEL_OFFSET as int, images.kernel->0.len());
    }
    if images.initrd is Some {
        lemma_ram_resolves(bus, initrd_offset(ram_size), images.initrd->0.len());
    }
    lemma_ram_resolves(bus, offset, tree.len());
    lemma_reset_vector_len((RAM_BASE + offset) as u64);
    let k: int = if images.kernel is Some {
        1
    } else {
        0
    };
    let d: int = if images.initrd is Some {
        1
    } else {
        0
    };
    assert(parts.len() == 3 + k + d);
    assert(parts[0] == (RAM_BASE, images.firmware));
    assert(k == 1 ==> parts[1] == ((RAM_BASE + KERNEL_OFFSET) as u64, images.kernel->0));
    assert(d == 1 ==> parts[1 + k] == (
        (RAM_BASE + initrd_offset(ram_size)) as u64,
        images.initrd->0,
    ));
    assert(parts[1 + k + d] == ((RAM_BASE + offset) as u64, tree));
    assert(parts[2 + k + d] == (0x1000u64, reset_vector((RAM_BASE + offset) as u64)));
}

proof fn lemma_reset_vector_len(fdt_address: u64)
    ensures
        reset_vector(fdt_address).len() == 40,
{
    bytes::lemma_le_bytes_len(0x0000_0297, 4);
    bytes::lemma_le_bytes_len(0x0182_b283, 4);
    bytes::lemma_le_bytes_len(0x0000_0597, 4);
    bytes::lemma_le_bytes_len(0x0185_b583, 4);
    bytes::lemma_le_bytes_len(0xf140_2573, 4);
    bytes::lemma_le_bytes_len(0x0002_8067, 4);
    bytes::lemma_le_bytes_len(RAM_BASE as nat, 8);
    bytes::lemma_le_bytes_len(fdt_address as nat, 8);
}

/// Whatever it has run before and whatever its entropy source has delivered, a
/// machine boots exactly when its images fit, the source did deliver and its
/// device tree finds a place. Afterwards every image, the device tree and the
/// reset code are read back from where the layout says.
pub proof fn law_boot_images_are_in_place<H: Host>(
    m: MachineModel<H>,
    images: BootModel,
    drawn: Result<Seq<u8>, EntropyError>,
)
    requires
        m.valid(),
    ensures
        ({
            let (r, after) = m.booted(images, drawn);
            let memory = after.bus.memory;
            let builder = BuilderModel::tree(m.described(images, drawn->Ok_0));
            &&& r is Ok <==> images.fault(m.bus.config.ram_size) is None && drawn is Ok
                && images.tree_offset(m.bus.config.ram_size, builder.size()) is Some
            &&& r matches Ok(layout) ==> {
                &&& memory.read_bytes(layout.firmware_address, images.firmware.len()) == Ok::<
                    Seq<u8>,
                    MemoryError,
                >(images.firmware)
                &&& images.kernel matches Some(kernel) ==> memory.read_bytes(
                    layout.kernel_address->0,
                    kernel.len(),
                ) == Ok::<Seq<u8>, MemoryError>(kernel)
                &&& images.initrd matches Some(initrd) ==> memory.read_bytes(
                    layout.initrd_address->0,
                    initrd.len(),
                ) == Ok::<Seq<u8>, MemoryError>(initrd)
                &&& memory.read_bytes(layout.fdt_address, layout.fdt_size as nat) == Ok::<
                    Seq<u8>,
                    MemoryError,
                >(builder.finished())
                &&& memory.read_bytes(0x1000, 40) == Ok::<Seq<u8>, MemoryError>(
                    reset_vector(layout.fdt_address),
                )
            }
        }),
{
    let ram_size = m.bus.config.ram_size;
    let builder = BuilderModel::tree(m.described(images, drawn->Ok_0));
    if images.fault(ram_size) is None && drawn is Ok && images.tree_offset(ram_size, builder.size())
        is Some {
        let tree = builder.finished();
        fdt::law_tree_says_its_size(builder);
        let offset = images.tree_offset(ram_size, tree.len())->0;
        let parts = images.parts(ram_size, tree, offset);
        lemma_parts_placed(m.bus, images, tree);
        lemma_stored(m.bus.memory, parts, 0);
        lemma_reset_vector_len((RAM_BASE + offset) as u64);
        let k: int = if images.kernel is Some {
            1
        } else {
            0
        };
        let d: int = if images.initrd is Some {
            1
        } else {
            0
        };
        assert(parts[0] == (RAM_BASE, images.firmware));
        assert(k == 1 ==> parts[1] == ((RAM_BASE + KERNEL_OFFSET) as u64, images.kernel->0));
        assert(d == 1 ==> parts[1 + k] == (
            (RAM_BASE + initrd_offset(ram_size)) as u64,
            images.initrd->0,
        ));
        assert(parts[1 + k + d] == ((RAM_BASE + offset) as u64, tree));
        assert(parts[2 + k + d] == (0x1000u64, reset_vector((RAM_BASE + offset) as u64)));
    }
}

} // verus!
