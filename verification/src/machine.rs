//! Composition and boot loading for the RISC-V virtual machine.

use vstd::prelude::*;
use crate::browser_storage::{
    HttpBlockStore, HttpRequest, RequestModel, StorageError, StoreModel,
};
use crate::bytes;
use crate::cpu::{BusError, Control, Cpu, CpuBus, CpuModel, RunOutcome, RunState};
use crate::entropy::{Draws, EntropyError, EntropySource};
use crate::guest_memory::{GuestMemory, MemoryAccess};
use crate::memory::{
    AccessWidth, ArenaOffset, DeviceWidths, GuestAddress, KindModel, MemoryError, MemoryModel,
    RamFlags, RegionId, RegionModel,
};
use crate::ninep::{
    ActionModel, BrowserNineP, EndpointDevice, EndpointModel, NinePGeneration, NinePOutcome, NinePRequestId,
    NinePTransportAction, OutcomeModel,
};
use crate::platform::{
    Clint, FinishStatus, Finisher, GoldfishRtc, Plic, PlicModel, Uart16550, UartModel,
};
use crate::virtio::{TransportModel, VirtioTransport};
use crate::virtio_devices::{
    self, BlockBackend, BlockDevice, BlockModel, ConsoleDevice, ConsoleModel, DeviceError,
    EntropyDevice, InputDevice, InputKind, InputModel, MmioModel, NetworkBackend, NetworkDevice,
    NetworkModel, NinePBackend, NinePDevice, NinePModel, QueueState, VirtioDevice, VirtioMmioDevice,
};

verus! {

pub const RAM_BASE: u64 = 0x8000_0000;
pub const RESET_RAM_SIZE: u64 = 0x1_0000;
pub const FINISHER_BASE: u64 = 0x10_0000;
pub const RTC_BASE: u64 = 0x10_1000;
pub const CLINT_BASE: u64 = 0x200_0000;
pub const FRAMEBUFFER_BASE: u64 = 0x410_0000;
pub const PLIC_BASE: u64 = 0xc00_0000;
pub const UART_BASE: u64 = 0x1000_0000;
pub const VIRTIO_BASE: u64 = 0x1000_1000;
pub const KERNEL_OFFSET: u64 = 0x20_0000;
pub const FDT_ALIGNMENT: u64 = 0x20_0000;
pub const FDT_MAX_OFFSET: u64 = 0x4000_0000;

#[derive(Clone, Copy, Debug, PartialEq, Eq, Structural)]
pub struct FramebufferConfig {
    pub width: u32,
    pub height: u32,
}

#[derive(Clone, Copy, Debug, PartialEq, Eq, Structural)]
pub struct MachineConfig {
    pub ram_size: u64,
    pub framebuffer: Option<FramebufferConfig>,
}

#[derive(Clone, Copy, Debug, PartialEq, Eq)]
pub struct BootImages<'a> {
    pub firmware: &'a [u8],
    pub kernel: Option<&'a [u8]>,
    pub initrd: Option<&'a [u8]>,
    pub command_line: &'a str,
}

#[derive(Clone, Copy, Debug, PartialEq, Eq, Structural)]
pub struct BootLayout {
    pub firmware_address: u64,
    pub kernel_address: Option<u64>,
    pub initrd_address: Option<u64>,
    pub fdt_address: u64,
    pub fdt_size: u32,
}

#[derive(Clone, Copy, Debug, PartialEq, Eq, Structural)]
pub struct RedrawSpan {
    pub y: u32,
    pub height: u32,
}

#[derive(Clone, Copy, Debug, PartialEq, Eq, Structural)]
pub struct FramebufferUpdate {
    pub arena_offset: ArenaOffset,
    pub x: u32,
    pub y: u32,
    pub width: u32,
    pub height: u32,
    pub stride: u32,
}

#[derive(Clone, Debug, PartialEq, Eq)]
pub enum MachineError {
    Memory(MemoryError),
    InvalidRamSize(u64),
    InvalidFramebuffer,
    FirmwareTooLarge,
    FirmwareOverlapsKernel,
    KernelTooLarge,
    KernelOverlapsInitrd,
    InitrdTooLarge,
    DeviceTreeTooLarge,
    Virtio(DeviceError),
    VirtioSlotLimit,
    WrongVirtioDevice,
    Storage(StorageError),
    Entropy(EntropyError),
}

impl From<MemoryError> for MachineError {
    fn from(value: MemoryError) -> (r: Self) {
        MachineError::Memory(value)
    }
}

impl vstd::std_specs::convert::FromSpecImpl<MemoryError> for MachineError {
    open spec fn obeys_from_spec() -> bool {
        true
    }

    open spec fn from_spec(value: MemoryError) -> Self {
        MachineError::Memory(value)
    }
}

impl From<DeviceError> for MachineError {
    fn from(value: DeviceError) -> (r: Self) {
        MachineError::Virtio(value)
    }
}

impl vstd::std_specs::convert::FromSpecImpl<DeviceError> for MachineError {
    open spec fn obeys_from_spec() -> bool {
        true
    }

    open spec fn from_spec(value: DeviceError) -> Self {
        MachineError::Virtio(value)
    }
}

impl From<StorageError> for MachineError {
    fn from(value: StorageError) -> (r: Self) {
        MachineError::Storage(value)
    }
}

impl vstd::std_specs::convert::FromSpecImpl<StorageError> for MachineError {
    open spec fn obeys_from_spec() -> bool {
        true
    }

    open spec fn from_spec(value: StorageError) -> Self {
        MachineError::Storage(value)
    }
}

impl From<EntropyError> for MachineError {
    fn from(value: EntropyError) -> (r: Self) {
        MachineError::Entropy(value)
    }
}

impl vstd::std_specs::convert::FromSpecImpl<EntropyError> for MachineError {
    open spec fn obeys_from_spec() -> bool {
        true
    }

    open spec fn from_spec(value: EntropyError) -> Self {
        MachineError::Entropy(value)
    }
}

/// The services of the host that a machine is built on.
pub trait Host: Sized {
    type Entropy: EntropySource;

    type Block: BlockBackend;

    type Network: NetworkBackend;

    type NineP: NinePBackend;
}

/// The display memory of a machine.
#[derive(Clone, Copy, Debug, PartialEq, Eq, Structural)]
pub struct Framebuffer {
    pub region: RegionId,
    pub width: u32,
    pub height: u32,
    pub stride: u32,
    pub size: u32,
}

/// A VirtIO device in its slot.
pub enum VirtioSlot<H: Host> {
    Block(VirtioMmioDevice<BlockDevice<H::Block>>),
    HttpBlock(VirtioMmioDevice<BlockDevice<HttpBlockStore>>),
    Console(VirtioMmioDevice<ConsoleDevice>),
    Network(VirtioMmioDevice<NetworkDevice<H::Network>>),
    NineP(VirtioMmioDevice<NinePDevice<H::NineP>>),
    Endpoint(VirtioMmioDevice<EndpointDevice>),
    Input(VirtioMmioDevice<InputDevice>),
    Entropy(VirtioMmioDevice<EntropyDevice<H::Entropy>>),
}

/// The model of a device in its slot.
pub enum SlotModel<H: Host> {
    Block(MmioModel<BlockModel<<H::Block as BlockBackend>::Model>>),
    HttpBlock(MmioModel<BlockModel<StoreModel>>),
    Console(MmioModel<ConsoleModel>),
    Network(MmioModel<NetworkModel<<H::Network as NetworkBackend>::Model>>),
    NineP(MmioModel<NinePModel<<H::NineP as NinePBackend>::Model>>),
    Endpoint(MmioModel<EndpointModel>),
    Input(MmioModel<InputModel>),
    Entropy(MmioModel<Draws>),
}

impl<H: Host> View for VirtioSlot<H> {
    type V = SlotModel<H>;

    open spec fn view(&self) -> SlotModel<H> {
        match self {
            VirtioSlot::Block(device) => SlotModel::Block(device@),
            VirtioSlot::HttpBlock(device) => SlotModel::HttpBlock(device@),
            VirtioSlot::Console(device) => SlotModel::Console(device@),
            VirtioSlot::Network(device) => SlotModel::Network(device@),
            VirtioSlot::NineP(device) => SlotModel::NineP(device@),
            VirtioSlot::Endpoint(device) => SlotModel::Endpoint(device@),
            VirtioSlot::Input(device) => SlotModel::Input(device@),
            VirtioSlot::Entropy(device) => SlotModel::Entropy(device@),
        }
    }
}

impl<H: Host> SlotModel<H> {
    pub open spec fn transport(self) -> TransportModel {
        match self {
            SlotModel::Block(m) => m.transport,
            SlotModel::HttpBlock(m) => m.transport,
            SlotModel::Console(m) => m.transport,
            SlotModel::Network(m) => m.transport,
            SlotModel::NineP(m) => m.transport,
            SlotModel::Endpoint(m) => m.transport,
            SlotModel::Input(m) => m.transport,
            SlotModel::Entropy(m) => m.transport,
        }
    }

    pub open spec fn valid(self) -> bool {
        self.transport().valid() && match self {
            SlotModel::Block(m) => BlockDevice::<H::Block>::valid(m.device),
            SlotModel::HttpBlock(m) => BlockDevice::<HttpBlockStore>::valid(m.device),
            SlotModel::NineP(m) => NinePDevice::<H::NineP>::valid(m.device),
            _ => true,
        }
    }

    /// Whether the device raises its interrupt.
    pub open spec fn irq(self) -> bool {
        self.transport().interrupt_status != 0
    }

    pub open spec fn register(self, offset: u32, width: AccessWidth) -> u32 {
        match self {
            SlotModel::Block(m) => virtio_devices::mmio_register::<BlockDevice<H::Block>>(
                m,
                offset,
                width,
            ),
            SlotModel::HttpBlock(m) => virtio_devices::mmio_register::<BlockDevice<HttpBlockStore>>(
                m,
                offset,
                width,
            ),
            SlotModel::Console(m) => virtio_devices::mmio_register::<ConsoleDevice>(
                m,
                offset,
                width,
            ),
            SlotModel::Network(m) => virtio_devices::mmio_register::<NetworkDevice<H::Network>>(
                m,
                offset,
                width,
            ),
            SlotModel::NineP(m) => virtio_devices::mmio_register::<NinePDevice<H::NineP>>(
                m,
                offset,
                width,
            ),
            SlotModel::Endpoint(m) => virtio_devices::mmio_register::<EndpointDevice>(
                m,
                offset,
                width,
            ),
            SlotModel::Input(m) => virtio_devices::mmio_register::<InputDevice>(m, offset, width),
            SlotModel::Entropy(m) => virtio_devices::mmio_register::<EntropyDevice<H::Entropy>>(
                m,
                offset,
                width,
            ),
        }
    }

    pub open spec fn written(
        self,
        memory: MemoryModel,
        offset: u32,
        value: u32,
        width: AccessWidth,
    ) -> (Result<(), DeviceError>, SlotModel<H>, MemoryModel) {
        match self {
            SlotModel::Block(m) => {
                let (r, n, o) = virtio_devices::mmio_written::<BlockDevice<H::Block>>(
                    m,
                    memory,
                    offset,
                    value,
                    width,
                );
                (r, SlotModel::Block(n), o)
            },
            SlotModel::HttpBlock(m) => {
                let (r, n, o) = virtio_devices::mmio_written::<BlockDevice<HttpBlockStore>>(
                    m,
                    memory,
                    offset,
                    value,
                    width,
                );
                (r, SlotModel::HttpBlock(n), o)
            },
            SlotModel::Console(m) => {
                let (r, n, o) = virtio_devices::mmio_written::<ConsoleDevice>(
                    m,
                    memory,
                    offset,
                    value,
                    width,
                );
                (r, SlotModel::Console(n), o)
            },
            SlotModel::Network(m) => {
                let (r, n, o) = virtio_devices::mmio_written::<NetworkDevice<H::Network>>(
                    m,
                    memory,
                    offset,
                    value,
                    width,
                );
                (r, SlotModel::Network(n), o)
            },
            SlotModel::NineP(m) => {
                let (r, n, o) = virtio_devices::mmio_written::<NinePDevice<H::NineP>>(
                    m,
                    memory,
                    offset,
                    value,
                    width,
                );
                (r, SlotModel::NineP(n), o)
            },
            SlotModel::Endpoint(m) => {
                let (r, n, o) = virtio_devices::mmio_written::<EndpointDevice>(
                    m,
                    memory,
                    offset,
                    value,
                    width,
                );
                (r, SlotModel::Endpoint(n), o)
            },
            SlotModel::Input(m) => {
                let (r, n, o) = virtio_devices::mmio_written::<InputDevice>(
                    m,
                    memory,
                    offset,
                    value,
                    width,
                );
                (r, SlotModel::Input(n), o)
            },
            SlotModel::Entropy(m) => {
                let (r, n, o) = virtio_devices::mmio_written::<EntropyDevice<H::Entropy>>(
                    m,
                    memory,
                    offset,
                    value,
                    width,
                );
                (r, SlotModel::Entropy(n), o)
            },
        }
    }
}

impl<H: Host> VirtioSlot<H> {
    fn read(&self, offset: u32, width: AccessWidth) -> (r: u32)
        requires
            self@.valid(),
        ensures
            r == self@.register(offset, width),
    {
        match self {
            VirtioSlot::Block(device) => device.read(offset, width),
            VirtioSlot::HttpBlock(device) => device.read(offset, width),
            VirtioSlot::Console(device) => device.read(offset, width),
            VirtioSlot::Network(device) => device.read(offset, width),
            VirtioSlot::NineP(device) => device.read(offset, width),
            VirtioSlot::Endpoint(device) => device.read(offset, width),
            VirtioSlot::Input(device) => device.read(offset, width),
            VirtioSlot::Entropy(device) => device.read(offset, width),
        }
    }

    fn write<M: MemoryAccess>(
        &mut self,
        memory: &mut M,
        offset: u32,
        value: u32,
        width: AccessWidth,
    ) -> (r: Result<(), DeviceError>)
        requires
            old(self)@.valid(),
            old(memory).model().valid(),
        ensures
            (r, final(self)@, final(memory).model()) == old(self)@.written(
                old(memory).model(),
                offset,
                value,
                width,
            ),
            final(self)@.valid(),
            final(memory).model().follows(old(memory).model()),
    {
        match self {
            VirtioSlot::Block(device) => device.write(memory, offset, value, width),
            VirtioSlot::HttpBlock(device) => device.write(memory, offset, value, width),
            VirtioSlot::Console(device) => device.write(memory, offset, value, width),
            VirtioSlot::Network(device) => device.write(memory, offset, value, width),
            VirtioSlot::NineP(device) => device.write(memory, offset, value, width),
            VirtioSlot::Endpoint(device) => device.write(memory, offset, value, width),
            VirtioSlot::Input(device) => device.write(memory, offset, value, width),
            VirtioSlot::Entropy(device) => device.write(memory, offset, value, width),
        }
    }

    fn irq(&self) -> (r: bool)
        ensures
            r == self@.irq(),
    {
        match self {
            VirtioSlot::Block(device) => device.transport.irq(),
            VirtioSlot::HttpBlock(device) => device.transport.irq(),
            VirtioSlot::Console(device) => device.transport.irq(),
            VirtioSlot::Network(device) => device.transport.irq(),
            VirtioSlot::NineP(device) => device.transport.irq(),
            VirtioSlot::Endpoint(device) => device.transport.irq(),
            VirtioSlot::Input(device) => device.transport.irq(),
            VirtioSlot::Entropy(device) => device.transport.irq(),
        }
    }
}

/// The interrupt line of a slot, if there is one for it.
pub open spec fn slot_line(index: nat) -> Option<u8> {
    if crate::fdt::device_irq(index) < 32 {
        Some(crate::fdt::device_irq(index) as u8)
    } else {
        None
    }
}

fn virtio_irq_checked(index: usize) -> (r: Option<u8>)
    ensures
        r == slot_line(index as nat),
{
    if index >= 32 {
        return None;
    }
    let irq: u8 = if index + 1 >= 10 {
        (index + 3) as u8
    } else {
        (index + 1) as u8
    };
    if irq < 32 {
        Some(irq)
    } else {
        None
    }
}

/// The slot and the register in it at an address.
pub open spec fn slot_at(address: u64) -> Option<(nat, u32)> {
    let index = ((address - VIRTIO_BASE) / 0x1000) as nat;
    if address < VIRTIO_BASE || slot_line(index) is None {
        None
    } else {
        Some((index, ((address - VIRTIO_BASE) % 0x1000) as u32))
    }
}

fn virtio_location(address: u64) -> (r: Option<(usize, u32)>)
    ensures
        match r {
            Some((index, offset)) => slot_at(address) == Some((index as nat, offset)),
            None => slot_at(address) is None,
        },
{
    if address < VIRTIO_BASE {
        return None;
    }
    let relative: u64 = address - VIRTIO_BASE;
    let index: u64 = relative / 0x1000;
    if index >= 32 {
        return None;
    }
    match virtio_irq_checked(index as usize) {
        Some(_) => Some((index as usize, (relative % 0x1000) as u32)),
        None => None,
    }
}

/// Puts the interrupt lines of the slots from `i` on.
pub open spec fn slots_raised<H: Host>(plic: PlicModel, slots: Seq<SlotModel<H>>, i: nat) -> PlicModel
    decreases slots.len() - i,
{
    if i >= slots.len() {
        plic
    } else {
        slots_raised(
            match slot_line(i) {
                Some(line) => plic.with_irq(line, slots[i as int].irq()),
                None => plic,
            },
            slots,
            i + 1,
        )
    }
}

/// The memory and the devices of a machine.
pub struct PlatformBus<H: Host> {
    pub config: MachineConfig,
    pub memory: GuestMemory,
    pub clint: Clint,
    pub plic: Plic,
    pub uart: Uart16550,
    pub rtc: GoldfishRtc,
    pub finisher: Finisher,
    pub framebuffer: Option<Framebuffer>,
    pub virtio: Vec<VirtioSlot<H>>,
    pub timer_ticks: u64,
    pub host_nanoseconds: u64,
    pub interrupt_state_changed: bool,
}

/// The model of the memory and the devices of a machine.
#[verifier::ext_equal]
pub struct BusModel<H: Host> {
    pub config: MachineConfig,
    pub memory: MemoryModel,
    pub clint: Clint,
    pub plic: PlicModel,
    pub uart: UartModel,
    pub rtc: GoldfishRtc,
    pub finisher: Finisher,
    pub framebuffer: Option<Framebuffer>,
    pub virtio: Seq<SlotModel<H>>,
    pub timer_ticks: u64,
    pub host_nanoseconds: u64,
    pub interrupt_state_changed: bool,
}

/// The models of a list of slots.
pub open spec fn slot_models<H: Host>(slots: Seq<VirtioSlot<H>>) -> Seq<SlotModel<H>> {
    slots.map_values(|slot: VirtioSlot<H>| slot@)
}

impl<H: Host> View for PlatformBus<H> {
    type V = BusModel<H>;

    open spec fn view(&self) -> BusModel<H> {
        BusModel {
            config: self.config,
            memory: self.memory@,
            clint: self.clint,
            plic: self.plic@,
            uart: self.uart@,
            rtc: self.rtc,
            finisher: self.finisher,
            framebuffer: self.framebuffer,
            virtio: slot_models(self.virtio@),
            timer_ticks: self.timer_ticks,
            host_nanoseconds: self.host_nanoseconds,
            interrupt_state_changed: self.interrupt_state_changed,
        }
    }
}

/// Whether an address lies in an aperture.
pub open spec fn within(address: u64, base: u64, len: u64) -> bool {
    base <= address < base + len
}

fn inside(address: u64, base: u64, len: u64) -> (r: bool)
    ensures
        r == within(address, base, len),
{
    base <= address && address - base < len
}

impl<H: Host> BusModel<H> {
    /// The invariant: memory has the map of a machine with this configuration,
    /// and the display is the one that the configuration asks for.
    pub open spec fn valid(self) -> bool {
        &&& config_fault(self.config) is None
        &&& self.memory.follows(memory_map(self.config))
        &&& self.framebuffer == display_of(self.config)
        &&& self.uart.valid()
        &&& self.virtio.len() <= 29
        &&& forall|i: int| 0 <= i < self.virtio.len() ==> (#[trigger] self.virtio[i]).valid()
    }

    /// The bus after every device has put its interrupt line.
    pub open spec fn updated(self) -> BusModel<H> {
        BusModel {
            plic: slots_raised(
                self.plic.with_irq(10, self.uart.pending_id() != 1).with_irq(
                    11,
                    self.rtc.irq_pending && self.rtc.irq_enabled,
                ),
                self.virtio,
                0,
            ),
            ..self
        }
    }

    /// The interrupts that the devices raise at the CPU.
    pub open spec fn interrupts(self) -> u32 {
        let external = self.plic.lines();
        let software = if self.clint.msip {
            crate::cpu::MIP_MSIP
        } else {
            0
        };
        let direct = if self.timer_ticks >= self.clint.deadline {
            software | crate::cpu::MIP_MTIP
        } else {
            software
        };
        direct | external
    }

    /// The bus after a device access that came from `before`: the lines are
    /// put, and the CPU is told if that or the timer concerns it.
    pub open spec fn settled(self, before: BusModel<H>) -> BusModel<H> {
        let after = self.updated();
        BusModel {
            interrupt_state_changed: before.interrupt_state_changed || after.interrupts()
                != before.interrupts() || after.clint.deadline != before.clint.deadline,
            ..after
        }
    }

    /// A read of a device register before the lines are put.
    pub open spec fn device_reads(self, address: u64, width: AccessWidth) -> (
        Result<u64, BusError>,
        BusModel<H>,
    ) {
        if within(address, FINISHER_BASE, 0x1000) && width is Word {
            (Ok(0), self)
        } else if within(address, RTC_BASE, 0x1000) && width is Word {
            let (value, rtc) = self.rtc.reads(
                (address - RTC_BASE) as u32,
                self.host_nanoseconds,
            );
            (Ok(value as u64), BusModel { rtc, ..self })
        } else if within(address, CLINT_BASE, 0x1_0000) && (width is Word || width is DoubleWord) {
            let offset = (address - CLINT_BASE) as u32;
            let low = self.clint.register(offset, self.timer_ticks);
            let high = self.clint.register((offset + 4) as u32, self.timer_ticks);
            (
                Ok(
                    if width is DoubleWord {
                        (low + high * 0x1_0000_0000) as u64
                    } else {
                        low as u64
                    },
                ),
                self,
            )
        } else if within(address, PLIC_BASE, 0x400_0000) && width is Word {
            let (value, plic) = self.plic.reads((address - PLIC_BASE) as u32);
            (Ok(value as u64), BusModel { plic, ..self })
        } else if within(address, UART_BASE, 0x100) && width is Byte {
            let (value, uart) = self.uart.reads((address - UART_BASE) as u32);
            (Ok(value as u64), BusModel { uart, ..self })
        } else {
            match slot_at(address) {
                Some((index, offset)) => if index < self.virtio.len() {
                    (Ok(self.virtio[index as int].register(offset, width) as u64), self)
                } else {
                    (Err(BusError::AccessFault), self)
                },
                None => (Err(BusError::AccessFault), self),
            }
        }
    }

    pub open spec fn mmio_reads(self, address: u64, width: AccessWidth) -> (
        Result<u64, BusError>,
        BusModel<H>,
    ) {
        match self.device_reads(address, width) {
            (Ok(value), after) => (Ok(value), after.settled(self)),
            (Err(error), after) => (Err(error), after),
        }
    }

    /// A write of a device register before the lines are put.
    pub open spec fn device_writes(self, address: u64, width: AccessWidth, value: u64) -> (
        Result<(), BusError>,
        BusModel<H>,
    ) {
        let low = bytes::low_half(value);
        if within(address, FINISHER_BASE, 0x1000) && width is Word {
            (
                Ok(()),
                BusModel {
                    finisher: self.finisher.written((address - FINISHER_BASE) as u32, low),
                    ..self
                },
            )
        } else if within(address, RTC_BASE, 0x1000) && width is Word {
            (
                Ok(()),
                BusModel {
                    rtc: self.rtc.written(
                        (address - RTC_BASE) as u32,
                        low,
                        self.host_nanoseconds,
                    ),
                    ..self
                },
            )
        } else if within(address, CLINT_BASE, 0x1_0000) && (width is Word || width is DoubleWord) {
            let offset = (address - CLINT_BASE) as u32;
            let first = self.clint.written(offset, low);
            (
                Ok(()),
                BusModel {
                    clint: if width is DoubleWord {
                        first.written((offset + 4) as u32, bytes::high_half(value))
                    } else {
                        first
                    },
                    ..self
                },
            )
        } else if within(address, PLIC_BASE, 0x400_0000) && width is Word {
            (
                Ok(()),
                BusModel { plic: self.plic.written((address - PLIC_BASE) as u32, low), ..self },
            )
        } else if within(address, UART_BASE, 0x100) && width is Byte {
            (
                Ok(()),
                BusModel {
                    uart: self.uart.written((address - UART_BASE) as u32, (value % 256) as u8),
                    ..self
                },
            )
        } else {
            match slot_at(address) {
                Some((index, offset)) => if index < self.virtio.len() {
                    let (r, slot, memory) = self.virtio[index as int].written(
                        self.memory,
                        offset,
                        low,
                        width,
                    );
                    (
                        match r {
                            Ok(_) => Ok(()),
                            Err(_) => Err(BusError::AccessFault),
                        },
                        BusModel { virtio: self.virtio.update(index as int, slot), memory, ..self },
                    )
                } else {
                    (Err(BusError::AccessFault), self)
                },
                None => (Err(BusError::AccessFault), self),
            }
        }
    }

    pub open spec fn mmio_writes(self, address: u64, width: AccessWidth, value: u64) -> (
        Result<(), BusError>,
        BusModel<H>,
    ) {
        match self.device_writes(address, width, value) {
            (Ok(_), after) => (Ok(()), after.settled(self)),
            (Err(error), after) => (Err(error), after),
        }
    }

    /// A read of memory or, where there is none, of a device.
    pub open spec fn bus_reads(self, address: u64, width: AccessWidth) -> (
        Result<u64, BusError>,
        BusModel<H>,
    ) {
        match self.memory.read_value(address, width) {
            Ok(value) => (Ok(value), self),
            Err(_) => self.mmio_reads(address, width),
        }
    }

    /// A write of memory or, where there is none, of a device.
    pub open spec fn bus_writes(self, address: u64, width: AccessWidth, value: u64) -> (
        Result<(), BusError>,
        BusModel<H>,
    ) {
        if self.memory.resolve(address, width.size(), true) is Ok {
            (
                Ok(()),
                BusModel { memory: self.memory.write_value(address, width, value), ..self },
            )
        } else {
            self.mmio_writes(address, width, value)
        }
    }
}

impl<H: Host> PlatformBus<H> {
    fn update_device_irqs(&mut self)
        requires
            old(self)@.virtio.len() <= 29,
        ensures
            final(self)@ == old(self)@.updated(),
    {
        self.plic.set_irq(10, self.uart.irq());
        self.plic.set_irq(11, self.rtc.irq());
        let mut i: usize = 0;
        let ghost whole = old(self)@.updated().plic;
        while i < self.virtio.len()
            invariant
                i <= self.virtio.len(),
                self@ == (BusModel { plic: self.plic@, ..old(self)@ }),
                whole == old(self)@.updated().plic,
                whole == slots_raised(self.plic@, self@.virtio, i as nat),
            decreases self.virtio.len() - i,
        {
            match virtio_irq_checked(i) {
                Some(line) => {
                    self.plic.set_irq(line, self.virtio[i].irq());
                },
                None => {},
            }
            i = i + 1;
        }
    }

    fn interrupt_mask(&self) -> (r: u32)
        ensures
            r == self@.interrupts(),
    {
        let external: u32 = self.plic.cpu_interrupts();
        let software: u32 = if self.clint.software_interrupt() {
            crate::cpu::MIP_MSIP
        } else {
            0
        };
        let direct: u32 = if self.clint.timer_interrupt(self.timer_ticks) {
            software | crate::cpu::MIP_MTIP
        } else {
            software
        };
        direct | external
    }

    fn settle(&mut self, mask: u32, deadline: u64)
        requires
            old(self)@.virtio.len() <= 29,
        ensures
            final(self)@ == (BusModel {
                interrupt_state_changed: old(self)@.interrupt_state_changed
                    || old(self)@.updated().interrupts() != mask || old(self)@.clint.deadline
                    != deadline,
                ..old(self)@.updated()
            }),
    {
        self.update_device_irqs();
        if self.interrupt_mask() != mask || self.clint.deadline != deadline {
            self.interrupt_state_changed = true;
        }
    }

    fn read_mmio(&mut self, address: u64, width: AccessWidth) -> (r: Result<u64, BusError>)
        requires
            old(self)@.valid(),
        ensures
            (r, final(self)@) == old(self)@.mmio_reads(address, width),
            final(self)@.valid(),
    {
        let mask: u32 = self.interrupt_mask();
        let deadline: u64 = self.clint.deadline;
        let value: u64 = if inside(address, FINISHER_BASE, 0x1000) && width == AccessWidth::Word {
            0
        } else if inside(address, RTC_BASE, 0x1000) && width == AccessWidth::Word {
            self.rtc.read((address - RTC_BASE) as u32, self.host_nanoseconds) as u64
        } else if inside(address, CLINT_BASE, 0x1_0000) && (width == AccessWidth::Word || width
            == AccessWidth::DoubleWord) {
            let offset: u32 = (address - CLINT_BASE) as u32;
            let low: u64 = self.clint.read(offset, self.timer_ticks) as u64;
            if width == AccessWidth::DoubleWord {
                low + self.clint.read(offset + 4, self.timer_ticks) as u64 * 0x1_0000_0000
            } else {
                low
            }
        } else if inside(address, PLIC_BASE, 0x400_0000) && width == AccessWidth::Word {
            self.plic.read((address - PLIC_BASE) as u32) as u64
        } else if inside(address, UART_BASE, 0x100) && width == AccessWidth::Byte {
            self.uart.read((address - UART_BASE) as u32) as u64
        } else {
            match virtio_location(address) {
                Some((index, offset)) => {
                    if index >= self.virtio.len() {
                        return Err(BusError::AccessFault);
                    }
                    assert(self@.virtio[index as int].valid());
                    self.virtio[index].read(offset, width) as u64
                },
                None => {
                    return Err(BusError::AccessFault);
                },
            }
        };
        assert(slot_models(self.virtio@) == old(self)@.virtio);
        self.settle(mask, deadline);
        Ok(value)
    }

    fn write_slot(&mut self, index: usize, offset: u32, value: u32, width: AccessWidth) -> (r:
        Result<(), DeviceError>)
        requires
            old(self)@.valid(),
            index < old(self)@.virtio.len(),
        ensures
            ({
                let (result, slot, memory) = old(self)@.virtio[index as int].written(
                    old(self)@.memory,
                    offset,
                    value,
                    width,
                );
                &&& r == result
                &&& final(self)@ == (BusModel {
                    virtio: old(self)@.virtio.update(index as int, slot),
                    memory,
                    ..old(self)@
                })
            }),
            final(self)@.valid(),
    {
        assert(self@.virtio[index as int].valid());
        let r: Result<(), DeviceError> = self.virtio[index].write(
            &mut self.memory,
            offset,
            value,
            width,
        );
        proof {
            let slot = old(self)@.virtio[index as int].written(
                old(self)@.memory,
                offset,
                value,
                width,
            ).1;
            assert(self@.virtio =~= old(self)@.virtio.update(index as int, slot));
        }
        r
    }

    fn write_mmio(&mut self, address: u64, width: AccessWidth, value: u64) -> (r: Result<
        (),
        BusError,
    >)
        requires
            old(self)@.valid(),
        ensures
            (r, final(self)@) == old(self)@.mmio_writes(address, width, value),
            final(self)@.valid(),
    {
        let mask: u32 = self.interrupt_mask();
        let deadline: u64 = self.clint.deadline;
        let low: u32 = bytes::low_u32(value);
        if inside(address, FINISHER_BASE, 0x1000) && width == AccessWidth::Word {
            self.finisher.write((address - FINISHER_BASE) as u32, low);
        } else if inside(address, RTC_BASE, 0x1000) && width == AccessWidth::Word {
            self.rtc.write((address - RTC_BASE) as u32, low, self.host_nanoseconds);
        } else if inside(address, CLINT_BASE, 0x1_0000) && (width == AccessWidth::Word || width
            == AccessWidth::DoubleWord) {
            let offset: u32 = (address - CLINT_BASE) as u32;
            self.clint.write(offset, low);
            if width == AccessWidth::DoubleWord {
                self.clint.write(offset + 4, bytes::high_u32(value));
            }
        } else if inside(address, PLIC_BASE, 0x400_0000) && width == AccessWidth::Word {
            self.plic.write((address - PLIC_BASE) as u32, low);
        } else if inside(address, UART_BASE, 0x100) && width == AccessWidth::Byte {
            self.uart.write((address - UART_BASE) as u32, (value % 256) as u8);
        } else {
            match virtio_location(address) {
                Some((index, offset)) => {
                    if index >= self.virtio.len() {
                        return Err(BusError::AccessFault);
                    }
                    match self.write_slot(index, offset, low, width) {
                        Ok(()) => {},
                        Err(_) => {
                            return Err(BusError::AccessFault);
                        },
                    }
                },
                None => {
                    return Err(BusError::AccessFault);
                },
            }
        }
        self.settle(mask, deadline);
        Ok(())
    }

    /// Reads a physical RAM or device address.
    ///
    /// # Errors
    /// Returns an access fault for an unsupported address or width.
    pub fn read(&mut self, address: GuestAddress, width: AccessWidth) -> (r: Result<u64, BusError>)
        requires
            old(self)@.valid(),
        ensures
            (r, final(self)@) == old(self)@.bus_reads(address.0, width),
            final(self)@.valid(),
    {
        match self.memory.read(address, width) {
            Ok(value) => Ok(value),
            Err(_) => self.read_mmio(address.0, width),
        }
    }

    /// Writes a physical RAM or device address.
    ///
    /// # Errors
    /// Returns an access fault for an unsupported address or width.
    pub fn write(&mut self, address: GuestAddress, width: AccessWidth, value: u64) -> (r: Result<
        (),
        BusError,
    >)
        requires
            old(self)@.valid(),
        ensures
            (r, final(self)@) == old(self)@.bus_writes(address.0, width, value),
            final(self)@.valid(),
    {
        proof {
            bytes::lemma_le_bytes_len(value as nat, width.size());
        }
        match self.memory.write(address, width, value) {
            Ok(()) => Ok(()),
            Err(_) => self.write_mmio(address.0, width, value),
        }
    }
}

impl<H: Host> CpuBus for PlatformBus<H> {
    type Model = BusModel<H>;

    open spec fn model(&self) -> BusModel<H> {
        self@
    }

    open spec fn valid(m: BusModel<H>) -> bool {
        m.valid()
    }

    open spec fn reads(m: BusModel<H>, address: u64, width: AccessWidth) -> (
        Result<u64, BusError>,
        BusModel<H>,
    ) {
        m.bus_reads(address, width)
    }

    open spec fn writes(m: BusModel<H>, address: u64, width: AccessWidth, value: u64) -> (
        Result<(), BusError>,
        BusModel<H>,
    ) {
        m.bus_writes(address, width, value)
    }

    open spec fn resolves(m: BusModel<H>, address: u64, len: nat, write: bool) -> (
        Result<ArenaOffset, BusError>,
        BusModel<H>,
    ) {
        (
            match m.memory.resolve(address, len, write) {
                Ok(offset) => Ok(ArenaOffset(offset as u32)),
                Err(_) => Err(BusError::AccessFault),
            },
            BusModel { memory: m.memory.accessed(address, len, write), ..m },
        )
    }

    open spec fn arena_of(m: BusModel<H>) -> Seq<u8> {
        m.memory.arena
    }

    open spec fn with_arena(m: BusModel<H>, arena: Seq<u8>) -> BusModel<H> {
        BusModel { memory: MemoryModel { arena, ..m.memory }, ..m }
    }

    open spec fn notices(m: BusModel<H>) -> (bool, BusModel<H>) {
        (m.interrupt_state_changed, BusModel { interrupt_state_changed: false, ..m })
    }

    proof fn arena_keeps_valid(m: BusModel<H>, arena: Seq<u8>) {
        reveal(MemoryModel::layout);
        crate::memory::lemma_arena_keeps_valid(m.memory, arena);
    }

    fn read(&mut self, address: GuestAddress, width: AccessWidth) -> (r: Result<u64, BusError>) {
        match self.memory.read(address, width) {
            Ok(value) => Ok(value),
            Err(_) => self.read_mmio(address.0, width),
        }
    }

    fn write(&mut self, address: GuestAddress, width: AccessWidth, value: u64) -> (r: Result<
        (),
        BusError,
    >) {
        proof {
            bytes::lemma_le_bytes_len(value as nat, width.size());
        }
        match self.memory.write(address, width, value) {
            Ok(()) => Ok(()),
            Err(_) => self.write_mmio(address.0, width, value),
        }
    }

    fn ram_range(&mut self, address: GuestAddress, len: usize, write: bool) -> (r: Result<
        ArenaOffset,
        BusError,
    >) {
        proof {
            crate::memory::lemma_accessed_follows(self.memory@, address.0, len as nat, write);
        }
        match self.memory.physical.ram_range(address, len, write) {
            Ok(offset) => Ok(offset),
            Err(_) => Err(BusError::AccessFault),
        }
    }

    fn arena(&self) -> (r: &[u8]) {
        self.memory.physical.arena()
    }

    fn arena_mut(&mut self) -> (r: &mut [u8]) {
        self.memory.physical.arena_mut()
    }

    fn take_interrupt_state_changed(&mut self) -> (r: bool) {
        let changed: bool = self.interrupt_state_changed;
        self.interrupt_state_changed = false;
        changed
    }
}

/// Display memory, rounded up to whole steps of 64 KiB.
pub open spec fn display_size(display: FramebufferConfig) -> int {
    (display.height * (display.width * 4) + 0xffff) / 0x1_0000 * 0x1_0000
}

/// Whether the sizes of a display fit their fields.
pub open spec fn display_fits(display: FramebufferConfig) -> bool {
    &&& display.width * 4 <= u32::MAX
    &&& 0 < display.height * (display.width * 4)
    &&& display.height * (display.width * 4) + 0xffff <= u32::MAX
}

/// What is wrong with a configuration, if anything.
pub open spec fn config_fault(config: MachineConfig) -> Option<MachineError> {
    if config.ram_size == 0 || config.ram_size % 4096 != 0 {
        Some(MachineError::InvalidRamSize(config.ram_size))
    } else if config.ram_size + RESET_RAM_SIZE > u32::MAX {
        Some(MachineError::Memory(MemoryError::ArenaTooLarge))
    } else {
        match config.framebuffer {
            None => None,
            Some(display) => if !display_fits(display) {
                Some(MachineError::InvalidFramebuffer)
            } else if config.ram_size + RESET_RAM_SIZE + display_size(display) > u32::MAX {
                Some(MachineError::Memory(MemoryError::ArenaTooLarge))
            } else {
                None
            },
        }
    }
}

/// A memory map with another RAM region behind the others.
pub open spec fn with_ram(m: MemoryModel, base: u64, len: u64, flags: RamFlags) -> MemoryModel {
    MemoryModel {
        arena: m.arena + Seq::new(len as nat, |i: int| 0u8),
        regions: m.regions.push(
            crate::memory::ram_region(base, len, flags, m.arena.len() as u32),
        ),
    }
}

/// A memory map with another device aperture behind the others.
pub open spec fn with_device(m: MemoryModel, base: u64, len: u64, widths: DeviceWidths) -> MemoryModel {
    MemoryModel {
        regions: m.regions.push(
            crate::memory::RegionModel {
                base,
                original_len: len,
                mapped_len: len,
                kind: crate::memory::KindModel::Device { widths },
            },
        ),
        ..m
    }
}

/// The memory map of a machine before its devices: RAM, the reset RAM and the
/// display memory.
pub open spec fn ram_map(config: MachineConfig) -> MemoryModel {
    let empty = MemoryModel { arena: Seq::empty(), regions: Seq::empty() };
    let base = with_ram(
        with_ram(empty, RAM_BASE, config.ram_size, RamFlags(0)),
        0,
        RESET_RAM_SIZE,
        RamFlags(0),
    );
    match config.framebuffer {
        None => base,
        Some(display) => with_ram(
            base,
            FRAMEBUFFER_BASE,
            display_size(display) as u64,
            RamFlags(crate::memory::DIRTY_TRACKING_BIT),
        ),
    }
}

/// The memory map of a machine.
#[verifier::opaque]
pub open spec fn memory_map(config: MachineConfig) -> MemoryModel {
    let u8s = DeviceWidths(1);
    let u32s = DeviceWidths(4);
    let all = DeviceWidths((1u8 | 2u8) | 4u8);
    let m = with_device(ram_map(config), FINISHER_BASE, 0x1000, u32s);
    let m = with_device(m, RTC_BASE, 0x1000, u32s);
    let m = with_device(m, CLINT_BASE, 0x1_0000, u32s);
    let m = with_device(m, PLIC_BASE, 0x400_0000, u32s);
    let m = with_device(m, UART_BASE, 0x100, u8s);
    with_device(m, VIRTIO_BASE, 0x1_f000, all)
}

/// The display of a machine, whose memory is the third region.
pub open spec fn display_of(config: MachineConfig) -> Option<Framebuffer> {
    match config.framebuffer {
        None => None,
        Some(display) => Some(
            Framebuffer {
                region: RegionId(2),
                width: display.width,
                height: display.height,
                stride: (display.width * 4) as u32,
                size: display_size(display) as u32,
            },
        ),
    }
}

impl<H: Host> BusModel<H> {
    /// The memory and devices of a machine that has not run yet.
    pub open spec fn fresh(config: MachineConfig) -> BusModel<H> {
        BusModel {
            config,
            memory: memory_map(config),
            clint: Clint { msip: false, deadline: u64::MAX },
            plic: PlicModel::initial(),
            uart: UartModel::initial(),
            rtc: GoldfishRtc::initial(),
            finisher: Finisher { status: crate::platform::FinishStatus::Running },
            framebuffer: display_of(config),
            virtio: Seq::empty(),
            timer_ticks: 0,
            host_nanoseconds: 0,
            interrupt_state_changed: false,
        }
    }
}

/// The RAM of a machine lies at the start of its arena, the reset RAM behind
/// it, and behind that its display memory, whose written pages are recorded.
pub proof fn lemma_ram_regions<H: Host>(bus: BusModel<H>)
    requires
        bus.valid(),
    ensures
        bus.memory.regions.len() >= 2,
        bus.memory.regions[0] == crate::memory::ram_region(
            RAM_BASE,
            bus.config.ram_size,
            RamFlags(0),
            0,
        ),
        bus.memory.regions[1] == crate::memory::ram_region(
            0,
            RESET_RAM_SIZE,
            RamFlags(0),
            bus.config.ram_size as u32,
        ),
        bus.memory.regions[0].mapped_len == bus.config.ram_size,
        bus.memory.regions[1].mapped_len == RESET_RAM_SIZE,
        bus.memory.regions[0].kind matches KindModel::Ram { flags, .. } && !flags.has(
            crate::memory::ROM_BIT,
        ),
        bus.memory.regions[1].kind matches KindModel::Ram { flags, .. } && !flags.has(
            crate::memory::ROM_BIT,
        ),
        bus.framebuffer matches Some(display) ==> {
            &&& bus.memory.regions.len() > 2
            &&& bus.memory.regions[2] matches RegionModel {
                base,
                original_len,
                mapped_len,
                kind: KindModel::Ram { offset, flags, dirty: Some(words) },
            }
            &&& base == FRAMEBUFFER_BASE
            &&& original_len == display.size
            &&& mapped_len == display.size
            &&& offset == bus.config.ram_size + RESET_RAM_SIZE
            &&& !flags.has(crate::memory::ROM_BIT)
            &&& words.len() == crate::memory::bitmap_words(display.size as u64)
        },
{
    let m = bus.memory;
    let fresh = memory_map(bus.config);
    reveal(MemoryModel::layout);
    reveal(memory_map);
    assert(0u8 & 1u8 == 0 && 0u8 & 2u8 == 0 && 0u8 & 4u8 == 0 && 0u8 & !4u8 == 0 && 2u8 & 1u8 == 0
        && 2u8 & 2u8 == 2 && 2u8 & 4u8 == 0 && 2u8 & !4u8 == 2) by (bit_vector);
    let ram = ram_map(bus.config);
    assert(m.layout().len() == m.regions.len() && fresh.layout().len() == fresh.regions.len());
    assert(fresh.regions.len() == ram.regions.len() + 6);
    assert(ram.regions[0] == crate::memory::ram_region(
        RAM_BASE,
        bus.config.ram_size,
        RamFlags(0),
        0,
    ));
    assert(ram.regions[1] == crate::memory::ram_region(
        0,
        RESET_RAM_SIZE,
        RamFlags(0),
        bus.config.ram_size as u32,
    ));
    assert forall|i: int| 0 <= i < ram.regions.len() implies crate::memory::unmarked(
        #[trigger] m.regions[i],
    ) == crate::memory::unmarked(ram.regions[i]) by {
        assert(fresh.regions[i] == ram.regions[i]);
        assert(m.layout()[i] == fresh.layout()[i]);
    }
    assert(m.regions[0] == ram.regions[0] && m.regions[1] == ram.regions[1]);
    if let Some(display) = bus.config.framebuffer {
        assert(ram.regions[2] == crate::memory::ram_region(
            FRAMEBUFFER_BASE,
            display_size(display) as u64,
            RamFlags(crate::memory::DIRTY_TRACKING_BIT),
            (bus.config.ram_size + RESET_RAM_SIZE) as u32,
        ));
        assert(m.region_valid(2));
    }
}

fn add_ram(memory: &mut GuestMemory, base: u64, len: u64, flags: RamFlags) -> (r: Result<
    RegionId,
    MachineError,
>)
    requires
        old(memory)@.valid(),
        old(memory)@.regions.len() < 3,
        len > 0,
        len % 4096 == 0,
    ensures
        final(memory)@.valid(),
        match r {
            Ok(id) => old(memory)@.arena.len() + len <= u32::MAX && id.0
                == old(memory)@.regions.len() && final(memory)@ == with_ram(
                old(memory)@,
                base,
                len,
                flags,
            ),
            Err(error) => old(memory)@.arena.len() + len > u32::MAX && error
                == MachineError::Memory(MemoryError::ArenaTooLarge),
        },
{
    match memory.register_ram(GuestAddress(base), len, flags) {
        Ok(id) => Ok(id),
        Err(error) => Err(MachineError::from(error)),
    }
}

fn add_device(memory: &mut GuestMemory, base: u64, len: u64, widths: DeviceWidths)
    requires
        old(memory)@.valid(),
        old(memory)@.regions.len() < 20,
        len <= u32::MAX,
    ensures
        final(memory)@.valid(),
        final(memory)@ == with_device(old(memory)@, base, len, widths),
{
    let _ = memory.register_device(GuestAddress(base), len, widths);
}

fn add_display(memory: &mut GuestMemory, display: FramebufferConfig) -> (r: Result<
    Framebuffer,
    MachineError,
>)
    requires
        old(memory)@.valid(),
        old(memory)@.regions.len() == 2,
    ensures
        final(memory)@.valid(),
        match r {
            Ok(framebuffer) => {
                &&& display_fits(display)
                &&& framebuffer.stride > 0
                &&& old(memory)@.arena.len() + display_size(display) <= u32::MAX
                &&& framebuffer == (Framebuffer {
                    region: RegionId(2),
                    width: display.width,
                    height: display.height,
                    stride: (display.width * 4) as u32,
                    size: display_size(display) as u32,
                })
                &&& final(memory)@ == with_ram(
                    old(memory)@,
                    FRAMEBUFFER_BASE,
                    display_size(display) as u64,
                    RamFlags(crate::memory::DIRTY_TRACKING_BIT),
                )
            },
            Err(error) => error == (if !display_fits(display) {
                MachineError::InvalidFramebuffer
            } else {
                MachineError::Memory(MemoryError::ArenaTooLarge)
            }) && (display_fits(display) ==> old(memory)@.arena.len() + display_size(display)
                > u32::MAX),
        },
{
    proof {
        let h = display.height as int;
        let s = display.width * 4;
        assert(0 <= h * s <= 0xffff_ffff * 0x3_ffff_fffc) by (nonlinear_arith)
            requires
                0 <= h <= 0xffff_ffff,
                0 <= s <= 0x3_ffff_fffc,
        ;
        assert(h * s == 0 ==> h == 0 || s == 0) by (nonlinear_arith);
    }
    let stride: u64 = display.width as u64 * 4;
    if stride > 0xffff_ffff {
        return Err(MachineError::InvalidFramebuffer);
    }
    proof {
        let h = display.height as int;
        let s = stride as int;
        assert(0 <= h * s <= 0xffff_ffff * 0xffff_ffff && (s == 0 ==> h * s == 0))
            by (nonlinear_arith)
            requires
                0 <= h <= 0xffff_ffff,
                0 <= s <= 0xffff_ffff,
        ;
    }
    let used: u64 = display.height as u64 * stride;
    if used == 0 || used > 0xffff_ffff - 0xffff {
        return Err(MachineError::InvalidFramebuffer);
    }
    let size: u64 = (used + 0xffff) / 0x1_0000 * 0x1_0000;
    match add_ram(memory, FRAMEBUFFER_BASE, size, RamFlags::dirty_tracking()) {
        Ok(region) => Ok(
            Framebuffer {
                region,
                width: display.width,
                height: display.height,
                stride: stride as u32,
                size: size as u32,
            },
        ),
        Err(error) => Err(error),
    }
}

impl<H: Host> PlatformBus<H> {
    fn new(config: MachineConfig) -> (r: Result<Self, MachineError>)
        ensures
            match r {
                Ok(bus) => config_fault(config) is None && bus@ == BusModel::<H>::fresh(config)
                    && bus@.valid(),
                Err(error) => config_fault(config) == Some(error),
            },
    {
        if config.ram_size == 0 || config.ram_size % 4096 != 0 {
            return Err(MachineError::InvalidRamSize(config.ram_size));
        }
        let mut memory: GuestMemory = GuestMemory::new();
        match add_ram(&mut memory, RAM_BASE, config.ram_size, RamFlags::default()) {
            Ok(_) => {},
            Err(error) => {
                return Err(error);
            },
        }
        match add_ram(&mut memory, 0, RESET_RAM_SIZE, RamFlags::default()) {
            Ok(_) => {},
            Err(error) => {
                return Err(error);
            },
        }
        let framebuffer: Option<Framebuffer> = match config.framebuffer {
            None => None,
            Some(display) => match add_display(&mut memory, display) {
                Ok(framebuffer) => Some(framebuffer),
                Err(error) => {
                    return Err(error);
                },
            },
        };
        assert(memory@ == ram_map(config));
        let u32s: DeviceWidths = DeviceWidths::u32();
        add_device(&mut memory, FINISHER_BASE, 0x1000, u32s);
        add_device(&mut memory, RTC_BASE, 0x1000, u32s);
        add_device(&mut memory, CLINT_BASE, 0x1_0000, u32s);
        add_device(&mut memory, PLIC_BASE, 0x400_0000, u32s);
        add_device(&mut memory, UART_BASE, 0x100, DeviceWidths::u8());
        add_device(
            &mut memory,
            VIRTIO_BASE,
            0x1_f000,
            DeviceWidths::u8().union(DeviceWidths::u16()).union(DeviceWidths::u32()),
        );
        assert(memory@ == memory_map(config)) by {
            reveal(memory_map);
        }
        let bus = PlatformBus {
            config,
            memory,
            clint: Clint::default(),
            plic: Plic::default(),
            uart: Uart16550::default(),
            rtc: GoldfishRtc::default(),
            finisher: Finisher::default(),
            framebuffer,
            virtio: Vec::new(),
            timer_ticks: 0,
            host_nanoseconds: 0,
            interrupt_state_changed: false,
        };
        assert(slot_models(bus.virtio@) =~= Seq::<SlotModel<H>>::empty());
        Ok(bus)
    }
}

/// A machine: its CPU, its bus and the entropy of its host.
pub struct Machine<H: Host> {
    pub bus: PlatformBus<H>,
    pub cpu: Cpu,
    pub entropy: H::Entropy,
}

/// The model of a machine.
#[verifier::ext_equal]
pub struct MachineModel<H: Host> {
    pub bus: BusModel<H>,
    pub cpu: CpuModel,
    pub entropy: Draws,
}

impl<H: Host> View for Machine<H> {
    type V = MachineModel<H>;

    open spec fn view(&self) -> MachineModel<H> {
        MachineModel {
            bus: self.bus@,
            cpu: self.cpu@,
            entropy: self.entropy.draws(),
        }
    }
}

/// The interrupts that the devices of a platform can raise.
pub open spec fn device_interrupts() -> u32 {
    ((crate::cpu::MIP_MSIP | crate::cpu::MIP_MTIP) | crate::cpu::MIP_MEIP) | crate::cpu::MIP_SEIP
}

/// The whole milliseconds until a timer, at 10,000 ticks each.
pub open spec fn timer_delay(deadline: u64, now: u64) -> u32 {
    let ticks = if deadline > now {
        (deadline - now) / 10_000
    } else {
        0
    };
    if ticks > u32::MAX {
        u32::MAX
    } else {
        ticks as u32
    }
}

fn timer_delay_ms(deadline: u64, now: u64) -> (r: u32)
    ensures
        r == timer_delay(deadline, now),
{
    let ticks: u64 = deadline.saturating_sub(now) / 10_000;
    if ticks > 0xffff_ffff {
        0xffff_ffff
    } else {
        ticks as u32
    }
}

pub open spec fn smaller(a: u32, b: u32) -> u32 {
    if b < a {
        b
    } else {
        a
    }
}

impl<H: Host> MachineModel<H> {
    pub open spec fn valid(self) -> bool {
        self.bus.valid()
    }

    /// A machine that has not run yet.
    pub open spec fn fresh(config: MachineConfig, entropy: Draws) -> MachineModel<
        H,
    > {
        MachineModel {
            bus: BusModel::fresh(config),
            cpu: crate::cpu::reset_model(0),
            entropy,
        }
    }

    /// The machine after the CPU has been told what the devices raise.
    pub open spec fn synced(self) -> MachineModel<H> {
        let control = Control {
            mip: self.cpu.control.mip & !device_interrupts(),
            ..self.cpu.control
        };
        MachineModel {
            cpu: self.cpu.with_control(control.with_interrupts(self.bus.interrupts())),
            ..self
        }
    }

    /// The machine with another slot behind the others.
    pub open spec fn with_slot(self, slot: SlotModel<H>) -> MachineModel<H> {
        MachineModel {
            bus: BusModel { virtio: self.bus.virtio.push(slot), ..self.bus },
            ..self
        }
    }

    /// The machine at another time.
    pub open spec fn at(self, timer_ticks: u64, host_nanoseconds: u64) -> MachineModel<H> {
        let bus = BusModel {
            timer_ticks,
            host_nanoseconds,
            rtc: self.bus.rtc.checked(host_nanoseconds),
            ..self.bus
        }.updated();
        let synced = MachineModel { bus, ..self }.synced();
        MachineModel {
            cpu: synced.cpu.with_control(synced.cpu.control.at_time(timer_ticks)),
            ..synced
        }
    }

    /// The machine after a run of at most `cycles` cycles, and how many of them
    /// were used.
    pub open spec fn ran(self, cycles: u32) -> (nat, MachineModel<H>) {
        let start = self.synced();
        let (used, cpu, bus) = start.cpu.run_from::<PlatformBus<H>>(
            start.bus,
            cycles as nat,
            0,
        );
        (used, MachineModel { cpu, bus, ..start }.synced())
    }

    /// The delay until a timer goes off, if that comes sooner.
    pub open spec fn sleep(self, maximum: u32) -> u32 {
        let now = self.bus.timer_ticks;
        let rtc = self.bus.rtc.checked(self.bus.host_nanoseconds);
        let alarm: int = if rtc.alarm_running {
            (rtc.alarm - rtc.time(self.bus.host_nanoseconds)) / 1_000_000
        } else {
            maximum as int
        };
        let limited = if alarm < maximum {
            alarm as u32
        } else {
            maximum
        };
        let timer = if now >= self.bus.clint.deadline {
            limited
        } else {
            smaller(limited, timer_delay(self.bus.clint.deadline, now))
        };
        smaller(timer, timer_delay(self.cpu.control.stimer, now))
    }

    /// The ticks until the next timer that is still to go off.
    pub open spec fn next_timer(self) -> Option<u64> {
        let now = self.bus.timer_ticks;
        let clint = ticks_until(self.bus.clint.deadline, now);
        let supervisor = ticks_until(self.cpu.control.stimer, now);
        let alarm = if self.bus.rtc.alarm_running && self.bus.rtc.alarm > self.bus.rtc.time(
            self.bus.host_nanoseconds,
        ) {
            Some(
                ((self.bus.rtc.alarm - self.bus.rtc.time(self.bus.host_nanoseconds) + 99)
                    / 100) as u64,
            )
        } else {
            None
        };
        earlier(earlier(clint, supervisor), alarm)
    }
}

/// The ticks until a deadline, if it is set and not reached.
pub open spec fn ticks_until(deadline: u64, now: u64) -> Option<u64> {
    if deadline == u64::MAX || deadline <= now {
        None
    } else {
        Some((deadline - now) as u64)
    }
}

/// The earlier of two times that may be missing.
pub open spec fn earlier(a: Option<u64>, b: Option<u64>) -> Option<u64> {
    match (a, b) {
        (Some(x), Some(y)) => Some(
            if y < x {
                y
            } else {
                x
            },
        ),
        (Some(x), None) => Some(x),
        (None, b) => b,
    }
}

fn ticks_left(deadline: u64, now: u64) -> (r: Option<u64>)
    ensures
        r == ticks_until(deadline, now),
{
    if deadline == u64::MAX || deadline <= now {
        None
    } else {
        Some(deadline - now)
    }
}

fn earlier_of(a: Option<u64>, b: Option<u64>) -> (r: Option<u64>)
    ensures
        r == earlier(a, b),
{
    match (a, b) {
        (Some(x), Some(y)) => if y < x {
            Some(y)
        } else {
            Some(x)
        },
        (Some(x), None) => Some(x),
        (None, b) => b,
    }
}

/// Makes a locally administered unicast MAC address of random bytes.
pub fn local_mac(random: [u8; 6]) -> (r: [u8; 6])
    ensures
        r@ == random@.update(0, (random@[0] | 0x02) & 0xfe),
{
    let mut mac: [u8; 6] = random;
    mac[0] = (mac[0] | 0x02) & 0xfe;
    mac
}

/// Why a CPU run ended.
#[derive(Clone, Copy, Debug, PartialEq, Eq, Structural)]
pub enum CpuRunExitReason {
    CycleLimitReached,
    TimerReprogrammed,
    WfiSleep,
    HostServiceRequested,
}

/// How a CPU run went.
#[derive(Clone, Copy, Debug, PartialEq, Eq, Structural)]
pub struct CpuRun {
    pub consumed_cycles: u32,
    pub state: CpuRunExitReason,
}

/// Why a run from `before` to `after` ended: the CPU waits for an interrupt, a
/// timer was set, the limit was reached, or a device needs the host.
pub open spec fn exit_reason<H: Host>(
    before: MachineModel<H>,
    after: MachineModel<H>,
    used: nat,
    limit: u32,
) -> CpuRunExitReason {
    if after.cpu.control.power_down {
        CpuRunExitReason::WfiSleep
    } else if used >= limit {
        CpuRunExitReason::CycleLimitReached
    } else if after.bus.clint.deadline != before.bus.clint.deadline || after.cpu.control.stimer
        != before.cpu.control.stimer {
        CpuRunExitReason::TimerReprogrammed
    } else {
        CpuRunExitReason::HostServiceRequested
    }
}

impl<H: Host> Machine<H> {
    /// Creates an unbooted virtual platform on the host's entropy source, if
    /// that could be opened.
    ///
    /// # Errors
    ///
    /// Returns an error for a missing entropy source, invalid RAM or framebuffer
    /// sizes or an exhausted memory map.
    pub fn new(config: MachineConfig, entropy: Result<H::Entropy, EntropyError>) -> (r: Result<
        Self,
        MachineError,
    >)
        ensures
            match entropy {
                Err(error) => r == Err::<Self, _>(MachineError::Entropy(error)),
                Ok(source) => match r {
                    Ok(machine) => config_fault(config) is None && machine@
                        == MachineModel::<H>::fresh(config, source.draws()) && machine@.valid(),
                    Err(error) => config_fault(config) == Some(error),
                },
            },
    {
        match entropy {
            Ok(entropy) => Machine::new_with_entropy(config, entropy),
            Err(error) => Err(MachineError::from(error)),
        }
    }

    /// Creates an unbooted virtual platform with an explicit entropy source.
    ///
    /// # Errors
    ///
    /// Returns an error for invalid RAM or framebuffer sizes or an exhausted memory map.
    pub fn new_with_entropy(config: MachineConfig, entropy: H::Entropy) -> (r: Result<
        Self,
        MachineError,
    >)
        ensures
            match r {
                Ok(machine) => config_fault(config) is None && machine@ == MachineModel::<
                    H,
                >::fresh(config, entropy.draws()) && machine@.valid(),
                Err(error) => config_fault(config) == Some(error),
            },
    {
        let cpu: Cpu = Cpu::new(0);
        match PlatformBus::new(config) {
            Ok(bus) => Ok(Machine { bus, cpu, entropy }),
            Err(error) => Err(error),
        }
    }

    fn add_virtio(&mut self, slot: VirtioSlot<H>) -> (r: Result<usize, MachineError>)
        requires
            old(self)@.valid(),
            slot@.valid(),
        ensures
            match r {
                Ok(index) => old(self)@.bus.virtio.len() < 29 && index
                    == old(self)@.bus.virtio.len() && final(self)@ == old(self)@.with_slot(slot@),
                Err(error) => old(self)@.bus.virtio.len() >= 29 && error
                    == MachineError::VirtioSlotLimit && final(self)@ == old(self)@,
            },
            final(self)@.valid(),
    {
        let index: usize = self.bus.virtio.len();
        if virtio_irq_checked(index).is_none() {
            return Err(MachineError::VirtioSlotLimit);
        }
        self.bus.virtio.push(slot);
        assert(self@.bus.virtio =~= old(self)@.bus.virtio.push(slot@));
        Ok(index)
    }

    /// Adds a VirtIO block device and returns its MMIO slot.
    ///
    /// # Errors
    ///
    /// Returns an error after the available PLIC sources are exhausted.
    pub fn add_block_device(&mut self, backend: H::Block, id: [u8; 20]) -> (r: Result<
        usize,
        MachineError,
    >)
        requires
            old(self)@.valid(),
            <H::Block as BlockBackend>::valid(backend.model()),
        ensures
            old(self)@.added(
                SlotModel::Block(
                    MmioModel {
                        transport: TransportModel::fresh(2, 0, seq![16u16]),
                        device: BlockModel { backend: backend.model(), id: id@, pending: None },
                    },
                ),
                r,
                final(self)@,
            ),
            final(self)@.valid(),
    {
        let sizes: [u16; 1] = [16];
        assert(sizes@ =~= seq![16u16]);
        let transport: VirtioTransport = VirtioTransport::new(2, 0, sizes.as_slice());
        let device: BlockDevice<H::Block> = BlockDevice::new(backend, id);
        self.add_virtio(VirtioSlot::Block(VirtioMmioDevice::new(transport, device)))
    }

    /// Adds an asynchronous HTTP-backed block device and returns its MMIO slot.
    ///
    /// # Errors
    ///
    /// Returns an error after the available PLIC sources are exhausted.
    pub fn add_http_block_device(&mut self, backend: HttpBlockStore, id: [u8; 20]) -> (r: Result<
        usize,
        MachineError,
    >)
        requires
            old(self)@.valid(),
            backend@.valid(),
        ensures
            old(self)@.added(
                SlotModel::HttpBlock(
                    MmioModel {
                        transport: TransportModel::fresh(2, 0, seq![16u16]),
                        device: BlockModel { backend: backend@, id: id@, pending: None },
                    },
                ),
                r,
                final(self)@,
            ),
            final(self)@.valid(),
    {
        let sizes: [u16; 1] = [16];
        assert(sizes@ =~= seq![16u16]);
        let transport: VirtioTransport = VirtioTransport::new(2, 0, sizes.as_slice());
        let device: BlockDevice<HttpBlockStore> = BlockDevice::new(backend, id);
        self.add_virtio(VirtioSlot::HttpBlock(VirtioMmioDevice::new(transport, device)))
    }

    /// Adds a VirtIO console and returns its MMIO slot.
    ///
    /// # Errors
    ///
    /// Returns an error after the available PLIC sources are exhausted.
    pub fn add_console_device(&mut self, width: u16, height: u16) -> (r: Result<
        usize,
        MachineError,
    >)
        requires
            old(self)@.valid(),
        ensures
            old(self)@.added(
                SlotModel::Console(
                    MmioModel {
                        transport: TransportModel::fresh(3, 1, seq![16u16, 16]),
                        device: ConsoleModel {
                            output: Seq::empty(),
                            input: Seq::empty(),
                            width,
                            height,
                        },
                    },
                ),
                r,
                final(self)@,
            ),
            final(self)@.valid(),
    {
        let sizes: [u16; 2] = [16, 16];
        assert(sizes@ =~= seq![16u16, 16]);
        let transport: VirtioTransport = VirtioTransport::new(3, 1, sizes.as_slice());
        let device: ConsoleDevice = ConsoleDevice::new(width, height);
        self.add_virtio(VirtioSlot::Console(VirtioMmioDevice::new(transport, device)))
    }

    /// Adds a VirtIO network device and returns its MMIO slot.
    ///
    /// # Errors
    ///
    /// Returns an error after the available PLIC sources are exhausted.
    pub fn add_network_device(&mut self, backend: H::Network, mac: [u8; 6]) -> (r: Result<
        usize,
        MachineError,
    >)
        requires
            old(self)@.valid(),
        ensures
            old(self)@.added(
                SlotModel::Network(
                    MmioModel {
                        transport: TransportModel::fresh(1, 0x1_0020, seq![16u16, 16]),
                        device: NetworkModel {
                            backend: backend.model(),
                            mac: mac@,
                            receive: Seq::empty(),
                            carrier: false,
                        },
                    },
                ),
                r,
                final(self)@,
            ),
            final(self)@.valid(),
    {
        let sizes: [u16; 2] = [16, 16];
        assert(sizes@ =~= seq![16u16, 16]);
        let transport: VirtioTransport = VirtioTransport::new(1, 0x1_0020, sizes.as_slice());
        let device: NetworkDevice<H::Network> = NetworkDevice::new(backend, mac);
        self.add_virtio(VirtioSlot::Network(VirtioMmioDevice::new(transport, device)))
    }

    /// Generates a locally administered unicast MAC address from machine entropy.
    ///
    /// # Errors
    ///
    /// Returns an error when the host entropy source fails.
    pub fn generate_network_mac(&mut self) -> (r: Result<[u8; 6], MachineError>)
        ensures
            ({
                let filled = old(self)@.entropy.drawn(6);
                &&& final(self)@ == (MachineModel {
                    entropy: old(self)@.entropy.rest(),
                    ..old(self)@
                })
                &&& match r {
                    Ok(mac) => filled matches Ok(random) && mac@ == random.update(
                        0,
                        (random[0] | 0x02) & 0xfe,
                    ),
                    Err(error) => filled matches Err(e) && error == MachineError::Entropy(e),
                }
            }),
            old(self)@.valid() ==> final(self)@.valid(),
    {
        let mut random: Vec<u8> = bytes::zeros(6);
        match self.entropy.fill(random.as_mut_slice()) {
            Ok(()) => {},
            Err(error) => {
                return Err(MachineError::from(error));
            },
        }
        let mac: [u8; 6] = [
            random[0],
            random[1],
            random[2],
            random[3],
            random[4],
            random[5],
        ];
        assert(mac@ =~= random@);
        Ok(local_mac(mac))
    }

    /// Adds a raw-protocol VirtIO 9p device and returns its MMIO slot.
    ///
    /// # Errors
    ///
    /// Returns an error after the available PLIC sources are exhausted.
    pub fn add_ninep_device(&mut self, backend: H::NineP, tag: &[u8]) -> (r: Result<
        usize,
        MachineError,
    >)
        requires
            old(self)@.valid(),
            <H::NineP as NinePBackend>::valid(backend.model()),
        ensures
            old(self)@.added(
                SlotModel::NineP(
                    MmioModel {
                        transport: TransportModel::fresh(9, 1, seq![128u16]),
                        device: NinePModel { backend: backend.model(), tag: tag@ },
                    },
                ),
                r,
                final(self)@,
            ),
            final(self)@.valid(),
    {
        let sizes: [u16; 1] = [128];
        assert(sizes@ =~= seq![128u16]);
        let transport: VirtioTransport = VirtioTransport::new(9, 1, sizes.as_slice());
        let device: NinePDevice<H::NineP> = NinePDevice::new(backend, tag);
        self.add_virtio(VirtioSlot::NineP(VirtioMmioDevice::new(transport, device)))
    }

    /// Adds a VirtIO 9p device whose server runs in the host page and returns
    /// its MMIO slot.
    ///
    /// # Errors
    ///
    /// Returns an error after the available PLIC sources are exhausted.
    pub fn add_endpoint_device(&mut self, backend: BrowserNineP, tag: &[u8]) -> (r: Result<
        usize,
        MachineError,
    >)
        requires
            old(self)@.valid(),
        ensures
            old(self)@.added(
                SlotModel::Endpoint(
                    MmioModel {
                        transport: TransportModel::fresh(9, 1, seq![128u16]),
                        device: EndpointModel {
                            backend: backend@,
                            tag: tag@,
                            next_request: 1,
                            waiting: Seq::empty(),
                        },
                    },
                ),
                r,
                final(self)@,
            ),
            final(self)@.valid(),
    {
        let sizes: [u16; 1] = [128];
        assert(sizes@ =~= seq![128u16]);
        let transport: VirtioTransport = VirtioTransport::new(9, 1, sizes.as_slice());
        let device: EndpointDevice = EndpointDevice::new(backend, tag);
        self.add_virtio(VirtioSlot::Endpoint(VirtioMmioDevice::new(transport, device)))
    }

    /// Adds a VirtIO input device and returns its MMIO slot.
    ///
    /// # Errors
    ///
    /// Returns an error after the available PLIC sources are exhausted.
    pub fn add_input_device(&mut self, kind: InputKind) -> (r: Result<usize, MachineError>)
        requires
            old(self)@.valid(),
        ensures
            old(self)@.added(
                SlotModel::Input(
                    MmioModel {
                        transport: TransportModel::fresh(18, 0, seq![256u16, 256]),
                        device: InputModel {
                            kind,
                            select: 0,
                            subsel: 0,
                            events: Seq::empty(),
                            buttons: 0,
                        },
                    },
                ),
                r,
                final(self)@,
            ),
            final(self)@.valid(),
    {
        let sizes: [u16; 2] = [256, 256];
        assert(sizes@ =~= seq![256u16, 256]);
        let transport: VirtioTransport = VirtioTransport::new(18, 0, sizes.as_slice());
        let device: InputDevice = InputDevice::new(kind);
        self.add_virtio(VirtioSlot::Input(VirtioMmioDevice::new(transport, device)))
    }

    /// Adds a VirtIO entropy device on a handle to the host's source and
    /// returns its MMIO slot.
    ///
    /// # Errors
    ///
    /// Returns an error after the available PLIC sources are exhausted.
    pub fn add_entropy_device(&mut self, source: H::Entropy) -> (r: Result<usize, MachineError>)
        requires
            old(self)@.valid(),
        ensures
            old(self)@.added(
                SlotModel::Entropy(
                    MmioModel {
                        transport: TransportModel::fresh(4, 0, seq![16u16]),
                        device: source.draws(),
                    },
                ),
                r,
                final(self)@,
            ),
            final(self)@.valid(),
    {
        let sizes: [u16; 1] = [16];
        assert(sizes@ =~= seq![16u16]);
        let transport: VirtioTransport = VirtioTransport::new(4, 0, sizes.as_slice());
        let device: EntropyDevice<H::Entropy> = EntropyDevice::new(source);
        self.add_virtio(VirtioSlot::Entropy(VirtioMmioDevice::new(transport, device)))
    }

    fn sync_interrupts(&mut self)
        ensures
            final(self)@ == old(self)@.synced(),
            old(self)@.valid() ==> final(self)@.valid(),
    {
        let mask: u32 = crate::cpu::MIP_MSIP | crate::cpu::MIP_MTIP | crate::cpu::MIP_MEIP
            | crate::cpu::MIP_SEIP;
        let raised: u32 = self.bus.interrupt_mask();
        self.cpu.clear_interrupts(mask);
        self.cpu.set_interrupts(raised);
    }

    pub fn update_time(&mut self, timer_ticks: u64, host_nanoseconds: u64)
        requires
            old(self)@.valid(),
        ensures
            final(self)@ == old(self)@.at(timer_ticks, host_nanoseconds),
            final(self)@.valid(),
    {
        self.bus.timer_ticks = timer_ticks;
        self.bus.host_nanoseconds = host_nanoseconds;
        let _ = self.bus.rtc.limit_delay_ms(u32::MAX, host_nanoseconds);
        self.bus.update_device_irqs();
        self.sync_interrupts();
        self.cpu.set_time(timer_ticks);
    }

    /// Hands the guest's clocks to the machine.
    pub fn present_guest_clocks(&mut self, guest_timer_ticks: u64, guest_rtc_ns: u64)
        requires
            old(self)@.valid(),
        ensures
            final(self)@ == old(self)@.at(guest_timer_ticks, guest_rtc_ns),
            final(self)@.valid(),
    {
        self.update_time(guest_timer_ticks, guest_rtc_ns);
    }

    #[must_use]
    pub fn sleep_duration_ms(&mut self, maximum_delay_ms: u32) -> (r: u32)
        requires
            old(self)@.valid(),
        ensures
            r == old(self)@.sleep(maximum_delay_ms),
            final(self)@ == (MachineModel {
                bus: BusModel {
                    rtc: old(self)@.bus.rtc.checked(old(self)@.bus.host_nanoseconds),
                    ..old(self)@.bus
                },
                ..old(self)@
            }),
            final(self)@.valid(),
    {
        let now: u64 = self.bus.timer_ticks;
        let mut delay: u32 = self.bus.rtc.limit_delay_ms(
            maximum_delay_ms,
            self.bus.host_nanoseconds,
        );
        if !self.bus.clint.timer_interrupt(now) {
            let timer: u32 = timer_delay_ms(self.bus.clint.deadline, now);
            if timer < delay {
                delay = timer;
            }
        }
        let supervisor: u32 = timer_delay_ms(self.cpu.control.stimer, now);
        if supervisor < delay {
            delay = supervisor;
        }
        delay
    }

    pub fn run(&mut self, cycles: u32) -> (r: RunOutcome)
        requires
            old(self)@.valid(),
        ensures
            (r.cycles as nat, final(self)@) == old(self)@.ran(cycles),
            r.cycles <= cycles,
            final(self)@.valid(),
            r.state == old(self)@.run_end(cycles),
    {
        self.sync_interrupts();
        let outcome: RunOutcome = self.cpu.run(&mut self.bus, cycles);
        self.sync_interrupts();
        outcome
    }

    /// Runs the CPU until it needs the host, a timer changes or the limit is
    /// reached.
    pub fn run_cpu(&mut self, cycle_limit_cycles: u32) -> (r: CpuRun)
        requires
            old(self)@.valid(),
        ensures
            (r.consumed_cycles as nat, final(self)@) == old(self)@.ran(cycle_limit_cycles),
            r.state == exit_reason(
                old(self)@,
                final(self)@,
                r.consumed_cycles as nat,
                cycle_limit_cycles,
            ),
            r.consumed_cycles <= cycle_limit_cycles,
            final(self)@.valid(),
    {
        let deadline: u64 = self.bus.clint.deadline;
        let supervisor: u64 = self.cpu.control.stimer;
        let outcome: RunOutcome = self.run(cycle_limit_cycles);
        let state: CpuRunExitReason = if self.cpu.control.power_down {
            CpuRunExitReason::WfiSleep
        } else if outcome.cycles >= cycle_limit_cycles {
            CpuRunExitReason::CycleLimitReached
        } else if self.bus.clint.deadline != deadline || self.cpu.control.stimer != supervisor {
            CpuRunExitReason::TimerReprogrammed
        } else {
            CpuRunExitReason::HostServiceRequested
        };
        CpuRun { consumed_cycles: outcome.cycles, state }
    }

    /// Whether the CPU waits for an interrupt.
    #[must_use]
    pub fn is_wfi_sleeping(&self) -> (r: bool)
        ensures
            r == self@.cpu.control.power_down,
    {
        self.cpu.control.power_down
    }

    /// The guest ticks until the next timer goes off.
    #[must_use]
    pub fn next_timer_remaining_guest_ticks(&self) -> (r: Option<u64>)
        ensures
            r == self@.next_timer(),
    {
        let now: u64 = self.bus.timer_ticks;
        let clint: Option<u64> = ticks_left(self.bus.clint.deadline, now);
        let supervisor: Option<u64> = ticks_left(self.cpu.control.stimer, now);
        let time: u64 = self.bus.host_nanoseconds.wrapping_add(self.bus.rtc.time_offset);
        let alarm: Option<u64> = if self.bus.rtc.alarm_running && self.bus.rtc.alarm > time {
            let left: u64 = self.bus.rtc.alarm - time;
            Some(
                if left % 100 == 0 {
                    left / 100
                } else {
                    left / 100 + 1
                },
            )
        } else {
            None
        };
        earlier_of(earlier_of(clint, supervisor), alarm)
    }

    pub fn receive_console(&mut self, data: &[u8]) -> (r: usize)
        requires
            old(self)@.valid(),
        ensures
            r == (if data@.len() < old(self)@.bus.uart.space() {
                data@.len()
            } else {
                old(self)@.bus.uart.space()
            }),
            final(self)@ == old(self)@.typed(data@),
            final(self)@.valid(),
    {
        let count: usize = self.bus.uart.receive(data);
        self.bus.update_device_irqs();
        count
    }

    #[must_use]
    pub fn receive_space(&self) -> (r: usize)
        requires
            self@.valid(),
        ensures
            r == self@.bus.uart.space(),
    {
        self.bus.uart.receive_space()
    }

    pub fn take_console_output(&mut self) -> (r: Vec<u8>)
        ensures
            r@ == old(self)@.bus.uart.transmitted,
            final(self)@ == old(self)@.serial_taken(),
            old(self)@.valid() ==> final(self)@.valid(),
    {
        self.bus.uart.take_transmitted()
    }

    #[must_use]
    pub fn finish_status(&self) -> (r: FinishStatus)
        ensures
            r == self@.bus.finisher.status,
    {
        self.bus.finisher.status()
    }

    #[must_use]
    pub fn cpu(&self) -> (r: &Cpu)
        ensures
            *r == self.cpu,
    {
        &self.cpu
    }

    #[must_use]
    pub fn bus(&self) -> (r: &PlatformBus<H>)
        ensures
            *r == self.bus,
    {
        &self.bus
    }

    pub fn bus_mut(&mut self) -> (r: &mut PlatformBus<H>)
        ensures
            *r == old(self).bus,
            *final(self) == (Machine { bus: *final(r), ..*old(self) }),
    {
        &mut self.bus
    }
}

impl<H: Host> MachineModel<H> {
    /// Whether adding a slot came out as `r` and `after`: it gets the next
    /// number, unless every interrupt line is taken.
    pub open spec fn added(
        self,
        slot: SlotModel<H>,
        r: Result<usize, MachineError>,
        after: MachineModel<H>,
    ) -> bool {
        match r {
            Ok(index) => self.bus.virtio.len() < 29 && index == self.bus.virtio.len() && after
                == self.with_slot(slot),
            Err(error) => self.bus.virtio.len() >= 29 && error == MachineError::VirtioSlotLimit
                && after == self,
        }
    }

    /// The state in which the CPU ends a run.
    pub open spec fn run_end(self, cycles: u32) -> RunState {
        let start = self.synced();
        start.cpu.run_from::<PlatformBus<H>>(start.bus, cycles as nat, 0).1.run_state()
    }
}

impl<H: Host> MachineModel<H> {
    /// The machine with another device in a slot and another memory.
    pub open spec fn with_device(self, slot: int, device: SlotModel<H>, memory: MemoryModel) -> MachineModel<
        H,
    > {
        MachineModel {
            bus: BusModel { virtio: self.bus.virtio.update(slot, device), memory, ..self.bus },
            ..self
        }
    }

    /// The machine after every device has put its interrupt line.
    pub open spec fn raised(self) -> MachineModel<H> {
        MachineModel { bus: self.bus.updated(), ..self }
    }

    /// What a machine makes of a device's result: the interrupt lines are put
    /// unless the device failed.
    pub open spec fn concluded(self, r: Result<(), DeviceError>) -> (
        Result<(), MachineError>,
        MachineModel<H>,
    ) {
        match r {
            Ok(_) => (Ok(()), self.raised()),
            Err(error) => (Err(MachineError::Virtio(error)), self),
        }
    }

    /// A console slot gets host input.
    pub open spec fn console_input(self, slot: int, data: Seq<u8>) -> (
        Result<(), MachineError>,
        MachineModel<H>,
    ) {
        match self.bus.virtio[slot] {
            SlotModel::Console(mmio) if 0 <= slot < self.bus.virtio.len() => {
                let queue = QueueState {
                    device: mmio.device,
                    transport: mmio.transport,
                    memory: self.bus.memory,
                };
                let (r, after) = virtio_devices::console_received(queue, data);
                self.with_device(
                    slot,
                    SlotModel::Console(
                        MmioModel { transport: after.transport, device: after.device },
                    ),
                    after.memory,
                ).concluded(r)
            },
            _ => (Err(MachineError::WrongVirtioDevice), self),
        }
    }

    /// A network slot gets a packet from the host.
    pub open spec fn packet_input(self, slot: int, packet: Seq<u8>) -> (
        Result<(), MachineError>,
        MachineModel<H>,
    ) {
        match self.bus.virtio[slot] {
            SlotModel::Network(mmio) if 0 <= slot < self.bus.virtio.len() => {
                let queue = QueueState {
                    device: mmio.device,
                    transport: mmio.transport,
                    memory: self.bus.memory,
                };
                let (r, after) = virtio_devices::network_received::<H::Network>(queue, packet);
                self.with_device(
                    slot,
                    SlotModel::Network(
                        MmioModel { transport: after.transport, device: after.device },
                    ),
                    after.memory,
                ).concluded(r)
            },
            _ => (Err(MachineError::WrongVirtioDevice), self),
        }
    }

    /// A keyboard slot gets a key transition.
    pub open spec fn key_input(self, slot: int, code: u16, down: bool) -> (
        Result<(), MachineError>,
        MachineModel<H>,
    ) {
        match self.bus.virtio[slot] {
            SlotModel::Input(mmio) if 0 <= slot < self.bus.virtio.len() => {
                let queue = QueueState {
                    device: mmio.device,
                    transport: mmio.transport,
                    memory: self.bus.memory,
                };
                let (r, after) = virtio_devices::key_sent(queue, code, down);
                self.with_device(
                    slot,
                    SlotModel::Input(
                        MmioModel { transport: after.transport, device: after.device },
                    ),
                    after.memory,
                ).concluded(r)
            },
            _ => (Err(MachineError::WrongVirtioDevice), self),
        }
    }

    /// A pointer slot gets movement, wheel and button state.
    pub open spec fn pointer_input(self, slot: int, position: (i32, i32), wheel: i32, buttons: u32) -> (
        Result<(), MachineError>,
        MachineModel<H>,
    ) {
        match self.bus.virtio[slot] {
            SlotModel::Input(mmio) if 0 <= slot < self.bus.virtio.len() => {
                let queue = QueueState {
                    device: mmio.device,
                    transport: mmio.transport,
                    memory: self.bus.memory,
                };
                let (r, after) = virtio_devices::pointer_sent(queue, position.0, position.1, wheel, buttons);
                self.with_device(
                    slot,
                    SlotModel::Input(
                        MmioModel { transport: after.transport, device: after.device },
                    ),
                    after.memory,
                ).concluded(r)
            },
            _ => (Err(MachineError::WrongVirtioDevice), self),
        }
    }

    /// A 9p slot gets an answer from its endpoint.
    pub open spec fn ninep_answer(self, slot: int, generation: u32, request: u32, outcome: OutcomeModel) -> (
        Result<(), MachineError>,
        MachineModel<H>,
    ) {
        match self.bus.virtio[slot] {
            SlotModel::Endpoint(mmio) if 0 <= slot < self.bus.virtio.len() => {
                let queue = QueueState {
                    device: mmio.device,
                    transport: mmio.transport,
                    memory: self.bus.memory,
                };
                let (r, after) = crate::ninep::endpoint_completed(queue, generation, request, outcome);
                self.with_device(
                    slot,
                    SlotModel::Endpoint(
                        MmioModel { transport: after.transport, device: after.device },
                    ),
                    after.memory,
                ).concluded(r)
            },
            _ => (Err(MachineError::WrongVirtioDevice), self),
        }
    }

    /// A block slot gets the answer to one of its HTTP requests, and takes up
    /// the guest request that waits for it.
    pub open spec fn block_answer(self, slot: int, request: u32, data: Seq<u8>) -> (
        Result<(), MachineError>,
        MachineModel<H>,
    ) {
        match self.bus.virtio[slot] {
            SlotModel::HttpBlock(mmio) if 0 <= slot < self.bus.virtio.len() => {
                let (stored, backend) = mmio.device.backend.completed(request, data);
                let device = BlockModel { backend, ..mmio.device };
                match stored {
                    Err(error) => (
                        Err(MachineError::Storage(error)),
                        self.with_device(
                            slot,
                            SlotModel::HttpBlock(MmioModel { device, ..mmio }),
                            self.bus.memory,
                        ),
                    ),
                    Ok(_) => {
                        let queue = QueueState {
                            device,
                            transport: mmio.transport,
                            memory: self.bus.memory,
                        };
                        let (r, after) = virtio_devices::block_resumed::<HttpBlockStore>(queue);
                        self.with_device(
                            slot,
                            SlotModel::HttpBlock(
                                MmioModel { transport: after.transport, device: after.device },
                            ),
                            after.memory,
                        ).concluded(r)
                    },
                }
            },
            _ => (Err(MachineError::WrongVirtioDevice), self),
        }
    }
}

impl<H: Host> MachineModel<H> {
    /// The machine after characters have come in on the serial line, as far as
    /// it has space.
    pub open spec fn typed(self, data: Seq<u8>) -> MachineModel<H> {
        let count = if data.len() < self.bus.uart.space() {
            data.len()
        } else {
            self.bus.uart.space()
        };
        MachineModel {
            bus: BusModel {
                uart: UartModel {
                    rx: self.bus.uart.rx + data.take(count as int),
                    ..self.bus.uart
                },
                ..self.bus
            }.updated(),
            ..self
        }
    }

    /// The machine after what it sent on the serial line has been taken.
    pub open spec fn serial_taken(self) -> MachineModel<H> {
        MachineModel {
            bus: BusModel {
                uart: UartModel { transmitted: Seq::empty(), ..self.bus.uart },
                ..self.bus
            },
            ..self
        }
    }

    /// The bytes that a console slot has sent, taken out of it.
    pub open spec fn output_taken(self, slot: int) -> (
        Result<Seq<u8>, MachineError>,
        MachineModel<H>,
    ) {
        match self.bus.virtio[slot] {
            SlotModel::Console(mmio) if 0 <= slot < self.bus.virtio.len() => (
                Ok(mmio.device.output),
                self.with_device(
                    slot,
                    SlotModel::Console(
                        MmioModel {
                            device: ConsoleModel { output: Seq::empty(), ..mmio.device },
                            ..mmio
                        },
                    ),
                    self.bus.memory,
                ),
            ),
            _ => (Err(MachineError::WrongVirtioDevice), self),
        }
    }

    /// The next HTTP request of a block slot, taken out of it.
    pub open spec fn block_request(self, slot: int) -> (
        Result<Option<RequestModel>, MachineError>,
        MachineModel<H>,
    ) {
        match self.bus.virtio[slot] {
            SlotModel::HttpBlock(mmio) if 0 <= slot < self.bus.virtio.len() => {
                let queue = mmio.device.backend.queue;
                (
                    Ok(
                        if queue.outgoing.len() > 0 {
                            Some(queue.outgoing[0])
                        } else {
                            None
                        },
                    ),
                    self.with_device(
                        slot,
                        SlotModel::HttpBlock(
                            MmioModel {
                                device: BlockModel {
                                    backend: StoreModel {
                                        queue: queue.sent(),
                                        ..mmio.device.backend
                                    },
                                    ..mmio.device
                                },
                                ..mmio
                            },
                        ),
                        self.bus.memory,
                    ),
                )
            },
            _ => (Err(MachineError::WrongVirtioDevice), self),
        }
    }

    /// The next transport action of a 9p slot, taken out of it.
    pub open spec fn ninep_action(self, slot: int) -> (
        Result<Option<ActionModel>, MachineError>,
        MachineModel<H>,
    ) {
        match self.bus.virtio[slot] {
            SlotModel::Endpoint(mmio) if 0 <= slot < self.bus.virtio.len() => {
                let channel = mmio.device.backend;
                (
                    Ok(
                        if channel.actions.len() > 0 {
                            Some(channel.actions[0])
                        } else {
                            None
                        },
                    ),
                    self.with_device(
                        slot,
                        SlotModel::Endpoint(
                            MmioModel {
                                device: EndpointModel { backend: channel.taken(), ..mmio.device },
                                ..mmio
                            },
                        ),
                        self.bus.memory,
                    ),
                )
            },
            _ => (Err(MachineError::WrongVirtioDevice), self),
        }
    }

    /// A console slot gets other dimensions.
    pub open spec fn console_resized(self, slot: int, width: u16, height: u16) -> (
        Result<(), MachineError>,
        MachineModel<H>,
    ) {
        match self.bus.virtio[slot] {
            SlotModel::Console(mmio) if 0 <= slot < self.bus.virtio.len() => (
                Ok(()),
                self.with_device(
                    slot,
                    SlotModel::Console(
                        MmioModel {
                            device: ConsoleModel { width, height, ..mmio.device },
                            transport: mmio.transport.config_changed(),
                        },
                    ),
                    self.bus.memory,
                ).raised(),
            ),
            _ => (Err(MachineError::WrongVirtioDevice), self),
        }
    }

    /// A network slot learns of its carrier.
    pub open spec fn carrier_set(self, slot: int, up: bool) -> (
        Result<(), MachineError>,
        MachineModel<H>,
    ) {
        match self.bus.virtio[slot] {
            SlotModel::Network(mmio) if 0 <= slot < self.bus.virtio.len() => (
                Ok(()),
                self.with_device(
                    slot,
                    SlotModel::Network(
                        MmioModel {
                            device: NetworkModel { carrier: up, ..mmio.device },
                            transport: mmio.transport.config_changed(),
                        },
                    ),
                    self.bus.memory,
                ).raised(),
            ),
            _ => (Err(MachineError::WrongVirtioDevice), self),
        }
    }
}

impl<H: Host> Machine<H> {
    fn conclude(&mut self, outcome: Result<(), DeviceError>) -> (r: Result<(), MachineError>)
        requires
            old(self)@.valid(),
        ensures
            (r, final(self)@) == old(self)@.concluded(outcome),
            final(self)@.valid(),
    {
        match outcome {
            Ok(()) => {
                self.bus.update_device_irqs();
                Ok(())
            },
            Err(error) => Err(MachineError::from(error)),
        }
    }

    /// Delivers host input to a VirtIO console slot.
    ///
    /// # Errors
    ///
    /// Returns an error for an invalid slot, wrong device type, or malformed queue.
    pub fn virtio_console_receive(&mut self, slot: usize, data: &[u8]) -> (r: Result<(), MachineError>)
        requires
            old(self)@.valid(),
        ensures
            (r, final(self)@) == old(self)@.console_input(slot as int, data@),
            final(self)@.valid(),
    {
        if slot >= self.bus.virtio.len() {
            return Err(MachineError::WrongVirtioDevice);
        }
        assert(self@.bus.virtio[slot as int].valid());
        let outcome: Result<(), DeviceError> = match &mut self.bus.virtio[slot] {
            VirtioSlot::Console(mmio) => mmio.device.receive(
                &mut mmio.transport,
                &mut self.bus.memory,
                data,
            ),
            _ => {
                assert(self@.bus.virtio =~= old(self)@.bus.virtio);
                return Err(MachineError::WrongVirtioDevice);
            },
        };
        assert(self@.bus.virtio =~= old(self)@.bus.virtio.update(
            slot as int,
            self.bus.virtio@[slot as int]@,
        ));
        self.conclude(outcome)
    }

    /// Delivers one host network packet to a VirtIO network slot.
    ///
    /// # Errors
    ///
    /// Returns an error for an invalid slot, wrong device type, or malformed queue.
    pub fn virtio_network_receive(&mut self, slot: usize, packet: Vec<u8>) -> (r: Result<(), MachineError>)
        requires
            old(self)@.valid(),
        ensures
            (r, final(self)@) == old(self)@.packet_input(slot as int, packet@),
            final(self)@.valid(),
    {
        if slot >= self.bus.virtio.len() {
            return Err(MachineError::WrongVirtioDevice);
        }
        assert(self@.bus.virtio[slot as int].valid());
        let outcome: Result<(), DeviceError> = match &mut self.bus.virtio[slot] {
            VirtioSlot::Network(mmio) => mmio.device.receive_packet(
                &mut mmio.transport,
                &mut self.bus.memory,
                packet,
            ),
            _ => {
                assert(self@.bus.virtio =~= old(self)@.bus.virtio);
                return Err(MachineError::WrongVirtioDevice);
            },
        };
        assert(self@.bus.virtio =~= old(self)@.bus.virtio.update(
            slot as int,
            self.bus.virtio@[slot as int]@,
        ));
        self.conclude(outcome)
    }

    /// Sends a host key transition to a VirtIO keyboard slot.
    ///
    /// # Errors
    ///
    /// Returns an error for an invalid slot, wrong device type, or unavailable queue.
    pub fn virtio_key_event(&mut self, slot: usize, code: u16, down: bool) -> (r: Result<(), MachineError>)
        requires
            old(self)@.valid(),
        ensures
            (r, final(self)@) == old(self)@.key_input(slot as int, code, down),
            final(self)@.valid(),
    {
        if slot >= self.bus.virtio.len() {
            return Err(MachineError::WrongVirtioDevice);
        }
        assert(self@.bus.virtio[slot as int].valid());
        let outcome: Result<(), DeviceError> = match &mut self.bus.virtio[slot] {
            VirtioSlot::Input(mmio) => mmio.device.send_key(
                &mut mmio.transport,
                &mut self.bus.memory,
                code,
                down,
            ),
            _ => {
                assert(self@.bus.virtio =~= old(self)@.bus.virtio);
                return Err(MachineError::WrongVirtioDevice);
            },
        };
        assert(self@.bus.virtio =~= old(self)@.bus.virtio.update(
            slot as int,
            self.bus.virtio@[slot as int]@,
        ));
        self.conclude(outcome)
    }

    /// Sends movement, wheel, and button state to a VirtIO pointer slot.
    ///
    /// # Errors
    ///
    /// Returns an error for an invalid slot, wrong device type, or unavailable queue.
    pub fn virtio_pointer_event(&mut self, slot: usize, position: (i32, i32), wheel: i32, buttons: u32) -> (r: Result<(), MachineError>)
        requires
            old(self)@.valid(),
        ensures
            (r, final(self)@) == old(self)@.pointer_input(slot as int, position, wheel, buttons),
            final(self)@.valid(),
    {
        if slot >= self.bus.virtio.len() {
            return Err(MachineError::WrongVirtioDevice);
        }
        assert(self@.bus.virtio[slot as int].valid());
        let outcome: Result<(), DeviceError> = match &mut self.bus.virtio[slot] {
            VirtioSlot::Input(mmio) => mmio.device.send_pointer(
                &mut mmio.transport,
                &mut self.bus.memory,
                position,
                wheel,
                buttons,
            ),
            _ => {
                assert(self@.bus.virtio =~= old(self)@.bus.virtio);
                return Err(MachineError::WrongVirtioDevice);
            },
        };
        assert(self@.bus.virtio =~= old(self)@.bus.virtio.update(
            slot as int,
            self.bus.virtio@[slot as int]@,
        ));
        self.conclude(outcome)
    }

    /// Completes one generic browser 9p transport request.
    ///
    /// # Errors
    ///
    /// Returns an error for an invalid slot, generation, request, response, or
    /// guest descriptor.
    pub fn complete_ninep_transport_request(&mut self, slot: usize, generation: NinePGeneration, request_id: NinePRequestId, outcome: NinePOutcome) -> (r: Result<(), MachineError>)
        requires
            old(self)@.valid(),
        ensures
            (r, final(self)@) == old(self)@.ninep_answer(slot as int, generation.0, request_id.0, outcome@),
            final(self)@.valid(),
    {
        if slot >= self.bus.virtio.len() {
            return Err(MachineError::WrongVirtioDevice);
        }
        assert(self@.bus.virtio[slot as int].valid());
        let outcome: Result<(), DeviceError> = match &mut self.bus.virtio[slot] {
            VirtioSlot::Endpoint(mmio) => mmio.device.complete(
                &mut mmio.transport,
                &mut self.bus.memory,
                generation,
                request_id,
                outcome,
            ),
            _ => {
                assert(self@.bus.virtio =~= old(self)@.bus.virtio);
                return Err(MachineError::WrongVirtioDevice);
            },
        };
        assert(self@.bus.virtio =~= old(self)@.bus.virtio.update(
            slot as int,
            self.bus.virtio@[slot as int]@,
        ));
        self.conclude(outcome)
    }

    /// Takes bytes transmitted by a VirtIO console slot.
    ///
    /// # Errors
    ///
    /// Returns an error for an invalid slot or wrong device type.
    pub fn take_virtio_console_output(&mut self, slot: usize) -> (r: Result<Vec<u8>, MachineError>)
        requires
            old(self)@.valid(),
        ensures
            match r {
                Ok(output) => old(self)@.output_taken(slot as int) == (
                    Ok::<Seq<u8>, MachineError>(output@),
                    final(self)@,
                ),
                Err(error) => old(self)@.output_taken(slot as int) == (
                    Err::<Seq<u8>, MachineError>(error),
                    final(self)@,
                ),
            },
            final(self)@.valid(),
    {
        if slot >= self.bus.virtio.len() {
            return Err(MachineError::WrongVirtioDevice);
        }
        assert(self@.bus.virtio[slot as int].valid());
        let mut output: Vec<u8> = Vec::new();
        match &mut self.bus.virtio[slot] {
            VirtioSlot::Console(mmio) => {
                std::mem::swap(&mut output, &mut mmio.device.output);
            },
            _ => {
                assert(self@.bus.virtio =~= old(self)@.bus.virtio);
                return Err(MachineError::WrongVirtioDevice);
            },
        }
        assert(self@.bus.virtio =~= old(self)@.bus.virtio.update(
            slot as int,
            self.bus.virtio@[slot as int]@,
        ));
        Ok(output)
    }

    /// Removes the next HTTP request queued by a block device.
    ///
    /// # Errors
    ///
    /// Returns an error for an invalid slot or wrong device type.
    pub fn next_http_block_request(&mut self, slot: usize) -> (r: Result<
        Option<HttpRequest>,
        MachineError,
    >)
        requires
            old(self)@.valid(),
        ensures
            match r {
                Ok(Some(request)) => old(self)@.block_request(slot as int) == (
                    Ok::<Option<RequestModel>, MachineError>(Some(request@)),
                    final(self)@,
                ),
                Ok(None) => old(self)@.block_request(slot as int) == (
                    Ok::<Option<RequestModel>, MachineError>(None),
                    final(self)@,
                ),
                Err(error) => old(self)@.block_request(slot as int) == (
                    Err::<Option<RequestModel>, MachineError>(error),
                    final(self)@,
                ),
            },
            final(self)@.valid(),
    {
        if slot >= self.bus.virtio.len() {
            return Err(MachineError::WrongVirtioDevice);
        }
        assert(self@.bus.virtio[slot as int].valid());
        let next: Option<HttpRequest> = match &mut self.bus.virtio[slot] {
            VirtioSlot::HttpBlock(mmio) => mmio.device.backend.next_request(),
            _ => {
                assert(self@.bus.virtio =~= old(self)@.bus.virtio);
                return Err(MachineError::WrongVirtioDevice);
            },
        };
        assert(self@.bus.virtio =~= old(self)@.bus.virtio.update(
            slot as int,
            self.bus.virtio@[slot as int]@,
        ));
        Ok(next)
    }

    /// Supplies one HTTP block response and resumes its pending guest request.
    ///
    /// # Errors
    ///
    /// Returns an error for an invalid slot, response, device request, or queue.
    #[verifier::rlimit(40)]
    pub fn complete_http_block_request(&mut self, slot: usize, request: u32, data: Vec<u8>) -> (r:
        Result<(), MachineError>)
        requires
            old(self)@.valid(),
        ensures
            (r, final(self)@) == old(self)@.block_answer(slot as int, request, data@),
            final(self)@.valid(),
    {
        if slot >= self.bus.virtio.len() {
            return Err(MachineError::WrongVirtioDevice);
        }
        assert(self@.bus.virtio[slot as int].valid());
        let stored: Result<(), StorageError> = match &mut self.bus.virtio[slot] {
            VirtioSlot::HttpBlock(mmio) => mmio.device.backend.complete(request, data),
            _ => {
                assert(self@.bus.virtio =~= old(self)@.bus.virtio);
                return Err(MachineError::WrongVirtioDevice);
            },
        };
        assert(self@.bus.virtio =~= old(self)@.bus.virtio.update(
            slot as int,
            self.bus.virtio@[slot as int]@,
        ));
        match stored {
            Ok(()) => {},
            Err(error) => {
                return Err(MachineError::from(error));
            },
        }
        let outcome: Result<(), DeviceError> = match &mut self.bus.virtio[slot] {
            VirtioSlot::HttpBlock(mmio) => mmio.device.resume(
                &mut mmio.transport,
                &mut self.bus.memory,
            ),
            _ => {
                assert(self@.bus.virtio =~= old(self)@.bus.virtio);
                return Err(MachineError::WrongVirtioDevice);
            },
        };
        assert(self@.bus.virtio =~= old(self)@.bus.virtio.update(
            slot as int,
            self.bus.virtio@[slot as int]@,
        ));
        self.conclude(outcome)
    }

    /// Returns the next generic browser 9p transport action.
    ///
    /// # Errors
    ///
    /// Returns an error when `slot` does not identify a 9p device with a browser
    /// endpoint.
    pub fn next_ninep_transport_action(&mut self, slot: usize) -> (r: Result<
        Option<NinePTransportAction>,
        MachineError,
    >)
        requires
            old(self)@.valid(),
        ensures
            match r {
                Ok(Some(action)) => old(self)@.ninep_action(slot as int) == (
                    Ok::<Option<ActionModel>, MachineError>(Some(action@)),
                    final(self)@,
                ),
                Ok(None) => old(self)@.ninep_action(slot as int) == (
                    Ok::<Option<ActionModel>, MachineError>(None),
                    final(self)@,
                ),
                Err(error) => old(self)@.ninep_action(slot as int) == (
                    Err::<Option<ActionModel>, MachineError>(error),
                    final(self)@,
                ),
            },
            final(self)@.valid(),
    {
        if slot >= self.bus.virtio.len() {
            return Err(MachineError::WrongVirtioDevice);
        }
        assert(self@.bus.virtio[slot as int].valid());
        let next: Option<NinePTransportAction> = match &mut self.bus.virtio[slot] {
            VirtioSlot::Endpoint(mmio) => mmio.device.backend.next_transport_action(),
            _ => {
                assert(self@.bus.virtio =~= old(self)@.bus.virtio);
                return Err(MachineError::WrongVirtioDevice);
            },
        };
        assert(self@.bus.virtio =~= old(self)@.bus.virtio.update(
            slot as int,
            self.bus.virtio@[slot as int]@,
        ));
        Ok(next)
    }

    /// Updates a VirtIO console's reported dimensions.
    ///
    /// # Errors
    ///
    /// Returns an error for an invalid slot or wrong device type.
    pub fn resize_virtio_console(&mut self, slot: usize, width: u16, height: u16) -> (r: Result<
        (),
        MachineError,
    >)
        requires
            old(self)@.valid(),
        ensures
            (r, final(self)@) == old(self)@.console_resized(slot as int, width, height),
            final(self)@.valid(),
    {
        if slot >= self.bus.virtio.len() {
            return Err(MachineError::WrongVirtioDevice);
        }
        assert(self@.bus.virtio[slot as int].valid());
        match &mut self.bus.virtio[slot] {
            VirtioSlot::Console(mmio) => {
                mmio.device.resize(&mut mmio.transport, width, height);
            },
            _ => {
                assert(self@.bus.virtio =~= old(self)@.bus.virtio);
                return Err(MachineError::WrongVirtioDevice);
            },
        }
        assert(self@.bus.virtio =~= old(self)@.bus.virtio.update(
            slot as int,
            self.bus.virtio@[slot as int]@,
        ));
        self.bus.update_device_irqs();
        Ok(())
    }

    /// Updates the host carrier state of a VirtIO network slot.
    ///
    /// # Errors
    ///
    /// Returns an error for an invalid slot or wrong device type.
    pub fn virtio_network_set_carrier(&mut self, slot: usize, up: bool) -> (r: Result<
        (),
        MachineError,
    >)
        requires
            old(self)@.valid(),
        ensures
            (r, final(self)@) == old(self)@.carrier_set(slot as int, up),
            final(self)@.valid(),
    {
        if slot >= self.bus.virtio.len() {
            return Err(MachineError::WrongVirtioDevice);
        }
        assert(self@.bus.virtio[slot as int].valid());
        match &mut self.bus.virtio[slot] {
            VirtioSlot::Network(mmio) => {
                mmio.device.set_carrier(&mut mmio.transport, up);
            },
            _ => {
                assert(self@.bus.virtio =~= old(self)@.bus.virtio);
                return Err(MachineError::WrongVirtioDevice);
            },
        }
        assert(self@.bus.virtio =~= old(self)@.bus.virtio.update(
            slot as int,
            self.bus.virtio@[slot as int]@,
        ));
        self.bus.update_device_irqs();
        Ok(())
    }
}

} // verus!
