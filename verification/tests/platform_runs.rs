//! Machines and the runtime that drives them.

use riscbox::browser::BrowserController;
use riscbox::browser_abi::{BrowserAbi, StartRequest};
use riscbox::browser_runtime::{BrowserRuntime, RuntimeStart};
use riscbox::entropy::{Draws, EntropyError, EntropySource};
use riscbox::guest_memory::{GuestMemory, MemoryAccess};
use riscbox::machine::{
    local_mac, BootImages, CpuRunExitReason, FramebufferConfig, Machine, MachineConfig,
    MachineError, RedrawSpan, FRAMEBUFFER_BASE, RAM_BASE, VIRTIO_BASE,
};
use riscbox::memory::{AccessWidth, GuestAddress, MemoryError, RamFlags};
use riscbox::platform::FinishStatus;
use riscbox::quantum::{QuantumOutcome, QuantumStart};
use riscbox::running::{HostAction, RuntimeError, WebHost};
use riscbox::virtio::{QueueError, QueueIndex, VirtioTransport};
use riscbox::virtio_devices::{DeviceError, InputKind};

/// Counts up.
struct Counter(u8);

impl EntropySource for Counter {
    fn draws(&self) -> Draws {
        unreachable!("only proofs speak of what is still to come")
    }

    fn fill(&mut self, destination: &mut [u8]) -> Result<(), EntropyError> {
        for byte in destination {
            *byte = self.0;
            self.0 = self.0.wrapping_add(1);
        }
        Ok(())
    }
}

/// Has nothing to give.
struct Dry;

impl EntropySource for Dry {
    fn draws(&self) -> Draws {
        unreachable!("only proofs speak of what is still to come")
    }

    fn fill(&mut self, _destination: &mut [u8]) -> Result<(), EntropyError> {
        Err(EntropyError)
    }
}

type Box64 = Machine<WebHost<Counter>>;

fn machine(framebuffer: Option<FramebufferConfig>) -> Box64 {
    let config = MachineConfig { ram_size: 32 << 20, framebuffer };
    Machine::new_with_entropy(config, Counter(1)).unwrap()
}

fn code(words: &[u32]) -> Vec<u8> {
    words.iter().flat_map(|word| word.to_le_bytes()).collect()
}

/// Prints `A` on the serial port, and waits.
fn greeting() -> Vec<u8> {
    code(&[0x1000_00b7, 0x0410_0113, 0x0020_8023, 0x1050_0073, 0xffdf_f06f])
}

/// Reports success to the finisher.
fn success() -> Vec<u8> {
    code(&[0x0010_00b7, 0x0000_5137, 0x5551_0113, 0x0020_a023, 0x0000_006f])
}

fn boot(machine: &mut Box64, firmware: &[u8]) {
    machine
        .load_boot(BootImages { firmware, kernel: None, initrd: None, command_line: "" })
        .unwrap();
}

#[test]
fn firmware_runs_from_reset() {
    let mut machine = machine(None);
    boot(&mut machine, &greeting());
    assert_eq!(machine.cpu().pc(), 0x1000);
    let run = machine.run_cpu(10_000);
    assert_eq!(run.state, CpuRunExitReason::WfiSleep);
    assert!(machine.is_wfi_sleeping());
    assert_eq!(machine.take_console_output(), b"A");
    assert_eq!(machine.finish_status(), FinishStatus::Running);
    assert_eq!(machine.next_timer_remaining_guest_ticks(), None);
}

#[test]
fn the_guest_ends_the_run() {
    let mut machine = machine(None);
    boot(&mut machine, &success());
    machine.run(10_000);
    assert_eq!(machine.finish_status(), FinishStatus::Passed);
}

#[test]
fn a_due_timer_wakes_the_cpu() {
    let mut machine = machine(None);
    boot(&mut machine, &greeting());
    machine.run_cpu(10_000);
    machine.update_time(100, 10_000);
    let bus = machine.bus_mut();
    bus.write(GuestAddress(0x200_4000), AccessWidth::Word, 5000).unwrap();
    bus.write(GuestAddress(0x200_4004), AccessWidth::Word, 0).unwrap();
    assert_eq!(machine.next_timer_remaining_guest_ticks(), Some(4900));
    machine.update_time(5000, 500_000);
    assert_eq!(machine.next_timer_remaining_guest_ticks(), None);
    assert_ne!(machine.cpu().csr_read(0x344, false).unwrap() & 0x80, 0);
}

#[test]
fn boot_images_are_in_place() {
    let mut machine = machine(None);
    let kernel = vec![3; 5000];
    let initrd = vec![4; 6000];
    let layout = machine
        .load_boot(BootImages {
            firmware: &[1; 100],
            kernel: Some(&kernel),
            initrd: Some(&initrd),
            command_line: "quiet",
        })
        .unwrap();
    assert_eq!(layout.firmware_address, RAM_BASE);
    assert_eq!(layout.kernel_address, Some(RAM_BASE + 0x20_0000));
    assert_eq!(machine.read_ram(RAM_BASE, 100).unwrap(), [1; 100]);
    assert_eq!(machine.read_ram(layout.kernel_address.unwrap(), 5000).unwrap(), kernel);
    assert_eq!(machine.read_ram(layout.initrd_address.unwrap(), 6000).unwrap(), initrd);
    let tree = machine.read_ram(layout.fdt_address, layout.fdt_size as usize).unwrap();
    assert_eq!(tree[..4], [0xd0, 0x0d, 0xfe, 0xed]);
    assert_eq!(layout.fdt_address % 0x20_0000, 0);
}

#[test]
fn boot_images_that_do_not_fit_are_refused() {
    let mut small = machine(None);
    let large = vec![0; 33 << 20];
    let images = BootImages { firmware: &large, kernel: None, initrd: None, command_line: "" };
    assert_eq!(small.load_boot(images), Err(MachineError::FirmwareTooLarge));
    let middle = vec![0; 3 << 20];
    let images = BootImages {
        firmware: &middle,
        kernel: Some(&[1]),
        initrd: None,
        command_line: "",
    };
    assert_eq!(small.load_boot(images), Err(MachineError::FirmwareOverlapsKernel));
}

#[test]
fn machines_check_their_configuration() {
    let config = MachineConfig { ram_size: 100, framebuffer: None };
    assert_eq!(
        Box64::new_with_entropy(config, Counter(0)).err(),
        Some(MachineError::InvalidRamSize(100))
    );
    let config = MachineConfig { ram_size: 32 << 20, framebuffer: None };
    assert_eq!(
        Box64::new(config, Err(EntropyError)).err(),
        Some(MachineError::Entropy(EntropyError))
    );
    let mut dry = Machine::<WebHost<Dry>>::new_with_entropy(config, Dry).unwrap();
    assert_eq!(dry.generate_network_mac(), Err(MachineError::Entropy(EntropyError)));
    let mut machine = machine(None);
    assert_eq!(machine.generate_network_mac(), Ok([2, 2, 3, 4, 5, 6]));
    assert_eq!(local_mac([0xff; 6]), [0xfe, 0xff, 0xff, 0xff, 0xff, 0xff]);
}

#[test]
fn slots_run_out_and_have_kinds() {
    let mut machine = machine(None);
    assert_eq!(machine.add_input_device(InputKind::Keyboard), Ok(0));
    for slot in 1..29 {
        assert_eq!(machine.add_console_device(80, 25), Ok(slot));
    }
    assert_eq!(machine.add_console_device(80, 25), Err(MachineError::VirtioSlotLimit));
    assert_eq!(
        machine.virtio_console_receive(0, b"x"),
        Err(MachineError::WrongVirtioDevice)
    );
    assert_eq!(
        machine.virtio_key_event(0, 30, true),
        Err(MachineError::Virtio(DeviceError::InvalidRequest))
    );
    register(&mut machine, 0, 0x70, 4);
    assert_eq!(
        machine.virtio_key_event(0, 30, true),
        Err(MachineError::Virtio(DeviceError::Queue(QueueError::NotReady)))
    );
    let magic = machine.bus_mut().read(GuestAddress(VIRTIO_BASE), AccessWidth::Word);
    assert_eq!(magic, Ok(0x7472_6976));
    let kind = machine.bus_mut().read(GuestAddress(VIRTIO_BASE + 0x1008), AccessWidth::Word);
    assert_eq!(kind, Ok(3));
}

fn register(machine: &mut Box64, slot: u64, offset: u64, value: u32) {
    machine
        .bus_mut()
        .write(
            GuestAddress(VIRTIO_BASE + 0x1000 * slot + offset),
            AccessWidth::Word,
            u64::from(value),
        )
        .unwrap();
}

/// A driver with one queue of four descriptors, in the page at `base`.
fn queue(machine: &mut Box64, slot: u64, index: u32, base: u64) {
    register(machine, slot, 0x70, 3);
    register(machine, slot, 0x24, 1);
    register(machine, slot, 0x20, 1);
    register(machine, slot, 0x70, 11);
    register(machine, slot, 0x30, index);
    register(machine, slot, 0x38, 4);
    register(machine, slot, 0x80, base as u32);
    register(machine, slot, 0x90, base as u32 + 0x100);
    register(machine, slot, 0xa0, base as u32 + 0x200);
    register(machine, slot, 0x44, 1);
    register(machine, slot, 0x70, 15);
}

fn describe(machine: &mut Box64, base: u64, buffer: u64, len: u32, flags: u16) {
    let mut descriptor = buffer.to_le_bytes().to_vec();
    descriptor.extend(len.to_le_bytes());
    descriptor.extend(flags.to_le_bytes());
    descriptor.extend([0, 0]);
    machine.write_ram(base, &descriptor).unwrap();
    machine.write_ram(base + 0x100, &[0, 0, 1, 0, 0, 0]).unwrap();
}

#[test]
fn console_bytes_pass_through_queues() {
    let mut machine = machine(None);
    machine.add_console_device(80, 25).unwrap();
    let base = RAM_BASE + 0x10_0000;
    queue(&mut machine, 0, 1, base);
    machine.write_ram(base + 0x800, b"hello").unwrap();
    describe(&mut machine, base, base + 0x800, 5, 0);
    register(&mut machine, 0, 0x50, 1);
    assert_eq!(machine.take_virtio_console_output(0), Ok(b"hello".to_vec()));
    assert_eq!(machine.read_ram(base + 0x202, 2).unwrap(), [1, 0]);

    let base = RAM_BASE + 0x11_0000;
    queue(&mut machine, 0, 0, base);
    describe(&mut machine, base, base + 0x800, 16, 2);
    machine.virtio_console_receive(0, b"input").unwrap();
    assert_eq!(machine.read_ram(base + 0x800, 5).unwrap(), b"input");
    assert_eq!(machine.read_ram(base + 0x204, 8).unwrap(), [0, 0, 0, 0, 5, 0, 0, 0]);
}

#[test]
fn keys_reach_the_guest() {
    let mut machine = machine(None);
    machine.add_input_device(InputKind::Keyboard).unwrap();
    let base = RAM_BASE + 0x10_0000;
    queue(&mut machine, 0, 0, base);
    describe(&mut machine, base, base + 0x800, 8, 2);
    machine.virtio_key_event(0, 30, true).unwrap();
    assert_eq!(machine.read_ram(base + 0x800, 8).unwrap(), [1, 0, 30, 0, 1, 0, 0, 0]);
    assert_eq!(machine.read_ram(base + 0x202, 2).unwrap(), [1, 0]);
    assert_eq!(
        machine.virtio_pointer_event(0, (1, 2), 0, 0),
        Err(MachineError::Virtio(DeviceError::InvalidRequest))
    );
}

#[test]
fn guests_get_entropy() {
    let mut machine = machine(None);
    machine.add_entropy_device(Counter(50)).unwrap();
    let base = RAM_BASE + 0x10_0000;
    queue(&mut machine, 0, 0, base);
    describe(&mut machine, base, base + 0x800, 4, 2);
    register(&mut machine, 0, 0x50, 0);
    assert_eq!(machine.read_ram(base + 0x800, 5).unwrap(), [50, 51, 52, 53, 0]);
}

#[test]
fn written_rows_are_redrawn() {
    let mut machine = machine(Some(FramebufferConfig { width: 64, height: 48 }));
    machine.take_redraw_spans().unwrap();
    assert_eq!(machine.take_redraw_spans(), Ok(vec![]));
    machine.write_ram(FRAMEBUFFER_BASE + 0x1004, &[7]).unwrap();
    let spans = machine.take_redraw_spans().unwrap();
    assert_eq!(spans, [RedrawSpan { y: 16, height: 16 }]);
    let update = machine.framebuffer_update(spans[0]).unwrap().unwrap();
    assert_eq!((update.width, update.stride), (64, 256));
    assert_eq!(machine.framebuffer_bytes(update).unwrap()[4], 7);
}

#[test]
fn unmapped_ram_is_reported() {
    let mut machine = machine(None);
    assert_eq!(
        machine.write_ram(0x5000_0000, &[1]),
        Err(MachineError::Memory(MemoryError::Unmapped(GuestAddress(0x5000_0000))))
    );
    assert!(machine.read_ram(RAM_BASE + (32 << 20) - 1, 2).is_err());
}

#[test]
fn queues_check_their_descriptors() {
    let mut memory = GuestMemory::new();
    memory
        .register_ram(GuestAddress(0x1000), 0x1000, RamFlags::default())
        .unwrap();
    let mut transport = VirtioTransport::new(3, 0, &[8]);
    assert_eq!(
        transport.next_chain(&mut memory, QueueIndex(8)),
        Err(QueueError::InvalidQueue)
    );
    assert_eq!(
        transport.next_chain(&mut memory, QueueIndex(1)),
        Err(QueueError::NotReady)
    );
    let word = AccessWidth::Word;
    for (offset, value) in [(0x30, 0), (0x38, 4), (0x80, 0x1000), (0x90, 0x1100), (0xa0, 0x1200)] {
        transport.write_mmio(offset, value, word);
    }
    transport.write_mmio(0x44, 1, word);
    assert_eq!(transport.next_chain(&mut memory, QueueIndex(0)), Ok(None));
    MemoryAccess::write(&mut memory, GuestAddress(0x1102), AccessWidth::HalfWord, 1).unwrap();
    MemoryAccess::write(&mut memory, GuestAddress(0x1104), AccessWidth::HalfWord, 9).unwrap();
    assert_eq!(
        transport.next_chain(&mut memory, QueueIndex(0)),
        Err(QueueError::InvalidDescriptor)
    );
    assert!(!transport.irq());
    transport.raise_config_interrupt();
    assert!(transport.irq());
    transport.write_mmio(0x64, 2, word);
    assert!(!transport.irq());
    transport.write_mmio(0x20, 2, word);
    transport.write_mmio(0x70, 11, word);
    assert_eq!(transport.status(), 3);
    transport.write_mmio(0x70, 0, word);
    assert_eq!((transport.status(), transport.driver_features()), (0, 0));
    assert!(!transport.queue(QueueIndex(0)).unwrap().ready);
}

const CONFIG: &[u8] = br#"{version: 1, machine: "riscv64", memory_size: 32,
    bios: "fw.bin", console: "uart", uart_output: true}"#;

fn start() -> RuntimeStart {
    RuntimeStart {
        config_url: "http://h/vm/x.cfg".into(),
        ram_mib: 32,
        command_line: String::new(),
        width: 0,
        height: 0,
        has_network: false,
    }
}

fn requested(runtime: &mut BrowserRuntime<Counter>) -> (u32, String) {
    match runtime.next_action() {
        Some(HostAction::Request(request)) => (request.id, request.url),
        other => panic!("no request: {other:?}"),
    }
}

fn sources() -> Result<(Counter, Counter), EntropyError> {
    Ok((Counter(1), Counter(100)))
}

fn started(firmware: Vec<u8>) -> BrowserRuntime<Counter> {
    let mut runtime = BrowserRuntime::<Counter>::default();
    runtime.start(start()).unwrap();
    let (id, url) = requested(&mut runtime);
    assert_eq!(url, "http://h/vm/x.cfg");
    runtime.complete_http(id, 200, CONFIG.to_vec(), sources()).unwrap();
    let (id, url) = requested(&mut runtime);
    assert_eq!(url, "http://h/vm/fw.bin");
    runtime.complete_http(id, 200, firmware, sources()).unwrap();
    assert_eq!(runtime.next_action(), Some(HostAction::Started));
    runtime
}

#[test]
fn a_runtime_loads_and_runs() {
    let mut runtime = started(greeting());
    let mut input = BrowserController::default();
    assert!(runtime.is_running());
    runtime.configure_quantum(true).unwrap();
    assert_eq!(
        runtime.begin_quantum(1_000_000, 300_000_000, 3_000_000, 10_000_000),
        QuantumStart::Ready
    );
    assert_eq!(
        runtime.begin_quantum(1_000_000, 300_000_000, 3_000_000, 10_000_000),
        QuantumStart::AlreadyActive
    );
    assert!(runtime.configure_quantum(false).is_err());
    let mut output = Vec::new();
    let mut outcome = runtime.run_quantum(&mut input).unwrap();
    while outcome == QuantumOutcome::HostServiceRequired {
        while let Some(action) = runtime.next_action() {
            if let HostAction::Console(bytes) = action {
                output.extend(bytes);
            }
        }
        outcome = runtime.run_quantum(&mut input).unwrap();
    }
    while let Some(action) = runtime.next_action() {
        if let HostAction::Console(bytes) = action {
            output.extend(bytes);
        }
    }
    assert_eq!(output, b"A");
    assert_eq!(outcome, QuantumOutcome::WfiSleep);
    assert!(runtime.finish_quantum(1_000_000).is_ok());
    assert!(runtime.last_quantum.cpu_runs > 0);
    assert_eq!(
        runtime.finish_quantum(1_000_000),
        Err(RuntimeError::Machine("finish without an active quantum".into()))
    );
}

#[test]
fn guest_time_never_falls() {
    let spin = code(&[0x0000_006f]);
    let mut runtime = started(spin);
    let mut input = BrowserController::default();
    assert_eq!(
        runtime.begin_quantum(1_000, 1_000_000, 100_000, 10_000_000),
        QuantumStart::Ready
    );
    assert_eq!(runtime.run_quantum(&mut input), Ok(QuantumOutcome::BudgetReached));
    assert_eq!(runtime.finish_quantum(1_000), Ok(0));
    assert_eq!(runtime.guest_clock_floor_ticks, 11_000_000);
    assert_eq!(runtime.wake_delay_ms(1_000, 0), 100);
    assert_eq!(runtime.wake_delay_ms(1_000, 200), 200);
    assert_eq!(
        runtime.begin_quantum(1_040, 1_000_000, 100_000, 10_000_000),
        QuantumStart::CatchUpDelayMs(60)
    );
    assert_eq!(
        runtime.begin_quantum(1_100, 1_000_000, 100_000, 10_000_000),
        QuantumStart::Ready
    );
    runtime.abort_quantum();
    assert_eq!(runtime.guest_clock_floor_ticks, 11_000_000);
}

#[test]
fn runtimes_refuse_what_they_do_not_expect() {
    let mut runtime = BrowserRuntime::<Counter>::default();
    assert_eq!(
        runtime.begin_quantum(1, 1, 1, 1),
        QuantumStart::VmInactive
    );
    runtime.start(start()).unwrap();
    assert_eq!(runtime.start(start()), Err(RuntimeError::AlreadyStarted));
    let (id, _) = requested(&mut runtime);
    assert_eq!(
        runtime.complete_http(id, 404, vec![], sources()),
        Err(RuntimeError::HttpStatus(404))
    );
    assert_eq!(
        runtime.complete_http(id + 9, 200, vec![], sources()),
        Err(RuntimeError::UnexpectedResponse(id + 9))
    );

    let mut runtime = BrowserRuntime::<Counter>::default();
    runtime.start(start()).unwrap();
    let (id, _) = requested(&mut runtime);
    assert_eq!(
        runtime.complete_http(id, 200, b"{}".to_vec(), sources()),
        Err(RuntimeError::InvalidConfig("missing 'version'".into()))
    );

    let mut runtime = BrowserRuntime::<Counter>::default();
    runtime.start(start()).unwrap();
    let (id, _) = requested(&mut runtime);
    assert_eq!(
        runtime.complete_http(id, 200, vec![0xff], sources()),
        Err(RuntimeError::InvalidConfig("configuration is not UTF-8".into()))
    );

    let mut runtime = BrowserRuntime::<Counter>::default();
    runtime.start(start()).unwrap();
    let (id, _) = requested(&mut runtime);
    let bare = br#"{version: 1, machine: "m", memory_size: 32}"#;
    assert_eq!(
        runtime.complete_http(id, 200, bare.to_vec(), sources()),
        Err(RuntimeError::MissingFirmware)
    );
}

#[test]
fn the_page_starts_one_machine() {
    let mut page = BrowserAbi::<Counter>::default();
    let request = StartRequest {
        config_url: "c".into(),
        ram_mib: 32,
        command_line: String::new(),
        password: "secret".into(),
        width: 0,
        height: 0,
        has_network: true,
    };
    assert_eq!(page.start(request.clone()), 0);
    assert_eq!(page.start(request.clone()), -1);
    assert_eq!(page.take_start_request(), Some(request));
    assert_eq!(page.take_start_request(), None);
    assert_eq!(page.console_input(b"abc"), 3);
    assert_eq!(page.console_resize(70_000, 1), -1);
    assert_eq!(page.console_resize(80, 25), 0);
    assert_eq!(page.key_event(1, 0x1_0000), -1);
    assert_eq!(page.key_event(1, 30), 0);
    assert!(page.with_controller().next_event().is_some());
    assert_eq!(page.next_action(), 1);
    assert_eq!(page.action_value(), 1);
    assert_eq!(page.framebuffer_action(), None);
    assert_eq!(page.http_complete(1, 70_000, vec![], sources()), -1);
}

#[test]
fn errors_describe_themselves() {
    assert_eq!(
        MemoryError::Unmapped(GuestAddress(0x1f)).describe(),
        "unmapped physical address 0x1f"
    );
    assert_eq!(MemoryError::RegionLimit.describe(), "physical memory map exceeds 32 regions");
    assert_eq!(
        MachineError::Virtio(DeviceError::Queue(QueueError::InvalidQueue)).describe(),
        "VirtIO device error: Queue(InvalidQueue)"
    );
    assert_eq!(
        MachineError::InvalidRamSize(0x64).describe(),
        "invalid platform RAM size 0x64"
    );
}

#[test]
fn redrawn_spans_are_apart() {
    let mut machine = machine(Some(FramebufferConfig { width: 64, height: 96 }));
    machine.take_redraw_spans().unwrap();
    for page in [3, 0, 2] {
        machine.write_ram(FRAMEBUFFER_BASE + 0x1000 * page, &[1]).unwrap();
    }
    assert_eq!(
        machine.take_redraw_spans().unwrap(),
        [RedrawSpan { y: 0, height: 16 }, RedrawSpan { y: 32, height: 32 }]
    );
    assert_eq!(machine.take_redraw_spans(), Ok(vec![]));
    machine.write_ram(FRAMEBUFFER_BASE + 0x5fff, &[1]).unwrap();
    machine.write_ram(FRAMEBUFFER_BASE + 0x6000, &[1]).unwrap();
    assert_eq!(machine.take_redraw_spans().unwrap(), [RedrawSpan { y: 80, height: 16 }]);
    machine.write_ram(FRAMEBUFFER_BASE + 0x6000, &[1]).unwrap();
    assert_eq!(machine.take_redraw_spans().unwrap(), [RedrawSpan { y: 96, height: 0 }]);
}

#[test]
fn machines_boot_again_after_a_run() {
    let mut machine = machine(Some(FramebufferConfig { width: 64, height: 48 }));
    let images = |firmware| BootImages { firmware, kernel: None, initrd: None, command_line: "" };
    let firmware = greeting();
    machine.load_boot(images(&firmware)).unwrap();
    machine.run_cpu(1000);
    machine.write_ram(FRAMEBUFFER_BASE, &[9; 64]).unwrap();
    let layout = machine.load_boot(images(&[3; 40])).unwrap();
    assert_eq!(machine.read_ram(RAM_BASE, 40).unwrap(), [3; 40]);
    let tree = machine.read_ram(layout.fdt_address, layout.fdt_size as usize).unwrap();
    assert_eq!(tree[..4], [0xd0, 0x0d, 0xfe, 0xed]);
    assert_eq!(machine.read_ram(0x1000, 4).unwrap(), [0x97, 0x02, 0, 0]);
}
