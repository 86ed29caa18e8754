//! Browser startup and execution state independent of the JavaScript adapter.

use std::collections::{BTreeMap, VecDeque};
use vstd::prelude::*;
use crate::boot::BootModel;
use crate::browser::{BrowserController, ControllerModel};
use crate::browser_storage::{HttpBlockStore, StoreModel};
use crate::config::{
    self, BackendModel, Console, FilesystemBackend, FilesystemModel, VmConfig, VmModel,
};
use crate::entropy::{Draws, EntropyError, EntropySource};
use crate::machine::{
    BootImages, CpuRun, CpuRunExitReason, FramebufferConfig, FramebufferUpdate, Machine,
    MachineConfig, MachineError, MachineModel, SlotModel,
};
use crate::ninep::{
    BrowserNineP, ChannelModel, EndpointModel, NinePEndpointId, NinePGeneration, NinePOutcome,
    NinePRequestId, OutcomeModel,
};
use crate::quantum::{self, ActiveQuantum, QuantumModel, NANOSECONDS_PER_GUEST_TICK};
use crate::running::{
    self, ErrorModel, HostAction, HostActionModel, Outbox, OutboxModel, OutputNetwork, Running,
    RunningModel, RuntimeError, WebHost,
};
use crate::text;
use crate::virtio::TransportModel;
use crate::virtio_devices::{
    BlockModel, ConsoleModel, InputKind, InputModel, MmioModel, NetworkModel,
};

verus! {

broadcast use vstd::std_specs::btree::group_btree_axioms;

/// Cached blocks of a drive, in bytes.
pub const DRIVE_CACHE: usize = 0x100_0000;

/// What the page asks for when it starts a machine.
#[derive(Clone, Debug, PartialEq, Eq)]
pub struct RuntimeStart {
    pub config_url: String,
    pub ram_mib: u32,
    pub command_line: String,
    pub width: u32,
    pub height: u32,
    pub has_network: bool,
}

/// The model of what the page asks for.
#[verifier::ext_equal]
pub struct StartModel {
    pub config_url: Seq<char>,
    pub ram_mib: u32,
    pub command_line: Seq<char>,
    pub width: u32,
    pub height: u32,
    pub has_network: bool,
}

impl View for RuntimeStart {
    type V = StartModel;

    open spec fn view(&self) -> StartModel {
        StartModel {
            config_url: self.config_url@,
            ram_mib: self.ram_mib,
            command_line: self.command_line@,
            width: self.width,
            height: self.height,
            has_network: self.has_network,
        }
    }
}

/// What a downloaded file is for.
#[derive(Clone, Copy, Debug, PartialEq, Eq, Structural)]
pub enum AssetKind {
    Firmware,
    Kernel,
    Initrd,
    Drive(usize),
}

/// A file that is to be downloaded.
pub struct Asset {
    pub kind: AssetKind,
    pub url: String,
}

/// A drive's descriptor and where it came from.
pub struct Manifest {
    pub url: String,
    pub data: Vec<u8>,
}

/// A machine whose files are being downloaded, one after another. Drives come
/// in their order.
pub struct Loading {
    pub start: RuntimeStart,
    pub config: VmConfig,
    pub assets: VecDeque<Asset>,
    pub waiting: Option<(u32, AssetKind)>,
    pub firmware: Option<Vec<u8>>,
    pub kernel: Option<Vec<u8>>,
    pub initrd: Option<Vec<u8>>,
    pub drive_manifests: Vec<Manifest>,
}

/// The model of a machine whose files are being downloaded.
#[verifier::ext_equal]
pub struct LoadingModel {
    pub start: StartModel,
    pub config: VmModel,
    pub assets: Seq<(AssetKind, Seq<char>)>,
    pub waiting: Option<(u32, AssetKind)>,
    pub firmware: Option<Seq<u8>>,
    pub kernel: Option<Seq<u8>>,
    pub initrd: Option<Seq<u8>>,
    pub drive_manifests: Seq<(Seq<char>, Seq<u8>)>,
}

pub open spec fn asset_models(assets: Seq<Asset>) -> Seq<(AssetKind, Seq<char>)> {
    assets.map_values(|asset: Asset| (asset.kind, asset.url@))
}

pub open spec fn manifest_models(manifests: Seq<Manifest>) -> Seq<(Seq<char>, Seq<u8>)> {
    manifests.map_values(|manifest: Manifest| (manifest.url@, manifest.data@))
}

/// The bytes of a file that may be missing.
pub open spec fn file_bytes(file: Option<Vec<u8>>) -> Option<Seq<u8>> {
    match file {
        Some(data) => Some(data@),
        None => None,
    }
}

impl View for Loading {
    type V = LoadingModel;

    open spec fn view(&self) -> LoadingModel {
        LoadingModel {
            start: self.start@,
            config: self.config@,
            assets: asset_models(self.assets@),
            waiting: self.waiting,
            firmware: file_bytes(self.firmware),
            kernel: file_bytes(self.kernel),
            initrd: file_bytes(self.initrd),
            drive_manifests: manifest_models(self.drive_manifests@),
        }
    }
}

/// The dimensions of the display: those of the page, or those of the
/// configuration.
pub open spec fn dimensions(start: StartModel, config: VmModel) -> Option<(u32, u32)> {
    if start.width != 0 && start.height != 0 {
        Some((start.width, start.height))
    } else {
        match config.display {
            Some(display) => Some((unsigned(display.width), unsigned(display.height))),
            None => None,
        }
    }
}

/// A number that is not negative, or zero.
pub open spec fn unsigned(value: i32) -> u32 {
    if value < 0 {
        0
    } else {
        value as u32
    }
}

fn to_unsigned(value: i32) -> (r: u32)
    ensures
        r == unsigned(value),
{
    if value < 0 {
        0
    } else {
        value as u32
    }
}

/// The memory and display that a machine gets.
pub open spec fn machine_config(start: StartModel, config: VmModel) -> MachineConfig {
    MachineConfig {
        ram_size: (start.ram_mib * 0x10_0000) as u64,
        framebuffer: match dimensions(start, config) {
            Some((width, height)) => if width != 0 && height != 0 {
                Some(FramebufferConfig { width, height })
            } else {
                None
            },
            None => None,
        },
    }
}

/// The name of a drive as its device reports it.
pub open spec fn drive_id(index: nat) -> Seq<u8> {
    crate::p9::fitted(
        vstd::utf8::encode_utf8("riscbox-http-"@ + text::decimal(index)),
        20,
    )
}

fn make_drive_id(index: usize) -> (r: [u8; 20])
    ensures
        r@ == drive_id(index as nat),
{
    let digits: String = text::decimal_text(index as u64);
    let name: String = text::joined("riscbox-http-", digits.as_str());
    let mut data: Vec<u8> = text::bytes_of(name.as_str());
    let ghost whole = data@;
    data.resize(20, 0);
    assert(data@ =~= crate::p9::fitted(whole, 20));
    let id: [u8; 20] = [
        data[0],
        data[1],
        data[2],
        data[3],
        data[4],
        data[5],
        data[6],
        data[7],
        data[8],
        data[9],
        data[10],
        data[11],
        data[12],
        data[13],
        data[14],
        data[15],
        data[16],
        data[17],
        data[18],
        data[19],
    ];
    assert(id@ =~= data@);
    id
}

/// A machine with another device, if there is a slot for it.
pub open spec fn slotted<E: EntropySource>(
    m: MachineModel<WebHost<E>>,
    slot: SlotModel<WebHost<E>>,
) -> Result<MachineModel<WebHost<E>>, ErrorModel> {
    if m.bus.virtio.len() < 29 {
        Ok(m.with_slot(slot))
    } else {
        Err(running::machine_fault(MachineError::VirtioSlotLimit))
    }
}

/// A machine with the drives from `i` on.
pub open spec fn with_drives<E: EntropySource>(
    m: MachineModel<WebHost<E>>,
    manifests: Seq<(Seq<char>, Seq<u8>)>,
    i: nat,
) -> Result<MachineModel<WebHost<E>>, ErrorModel>
    decreases manifests.len() - i,
{
    if i >= manifests.len() {
        Ok(m)
    } else {
        let (url, data) = manifests[i as int];
        if !vstd::utf8::valid_utf8(data) {
            Err(ErrorModel::InvalidConfig("drive manifest is not UTF-8"@))
        } else {
            match StoreModel::from_source(
                url,
                vstd::utf8::encode_utf8(vstd::utf8::decode_utf8(data)),
                DRIVE_CACHE as nat,
            ) {
                Err(error) => Err(ErrorModel::Machine(error.text())),
                Ok(store) => match slotted(
                    m,
                    SlotModel::HttpBlock(
                        MmioModel {
                            transport: TransportModel::fresh(2, 0, seq![16u16]),
                            device: BlockModel { backend: store, id: drive_id(i), pending: None },
                        },
                    ),
                ) {
                    Err(error) => Err(error),
                    Ok(next) => with_drives(next, manifests, i + 1),
                },
            }
        }
    }
}

/// A machine with the filesystems from `i` on. Their servers are in the page;
/// their endpoints count from one.
pub open spec fn with_filesystems<E: EntropySource>(
    m: MachineModel<WebHost<E>>,
    filesystems: Seq<FilesystemModel>,
    i: nat,
) -> Result<MachineModel<WebHost<E>>, ErrorModel>
    decreases filesystems.len() - i,
{
    if i >= filesystems.len() {
        Ok(m)
    } else {
        match filesystems[i as int].backend {
            BackendModel::Server(key) => match slotted(
                m,
                SlotModel::Endpoint(
                    MmioModel {
                        transport: TransportModel::fresh(9, 1, seq![128u16]),
                        device: EndpointModel {
                            backend: ChannelModel::initial((i + 1) as u32, key),
                            tag: vstd::utf8::encode_utf8(filesystems[i as int].tag),
                            next_request: 1,
                            waiting: Seq::empty(),
                        },
                    },
                ),
            ) {
                Err(error) => Err(error),
                Ok(next) => with_filesystems(next, filesystems, i + 1),
            },
            _ => Err(ErrorModel::InvalidConfig("unsupported filesystem backend"@)),
        }
    }
}

/// Slot numbers from a first one on.
pub open spec fn slots_from(first: nat, count: nat) -> Seq<usize> {
    Seq::new(count, |i: int| (first + i) as usize)
}

/// The slots of the first endpoints.
pub open spec fn endpoints(first: nat, count: nat) -> Map<u32, usize>
    decreases count,
{
    if count == 0 {
        Map::empty()
    } else {
        endpoints(first, (count - 1) as nat).insert(
            count as u32,
            (first + count - 1) as usize,
        )
    }
}

/// A machine with a console, if its configuration wants one on a slot.
pub open spec fn with_console<E: EntropySource>(
    m: MachineModel<WebHost<E>>,
    config: VmModel,
) -> Result<(Option<usize>, MachineModel<WebHost<E>>), ErrorModel> {
    if config.console == Console::Virtio {
        match slotted(
            m,
            SlotModel::Console(
                MmioModel {
                    transport: TransportModel::fresh(3, 1, seq![16u16, 16]),
                    device: ConsoleModel {
                        output: Seq::empty(),
                        input: Seq::empty(),
                        width: 80,
                        height: 25,
                    },
                },
            ),
        ) {
            Ok(next) => Ok((Some(m.bus.virtio.len() as usize), next)),
            Err(error) => Err(error),
        }
    } else {
        Ok((None, m))
    }
}

/// A machine with a network, if page and configuration want one.
pub open spec fn with_network<E: EntropySource>(
    m: MachineModel<WebHost<E>>,
    start: StartModel,
    config: VmModel,
) -> Result<(Option<usize>, MachineModel<WebHost<E>>), ErrorModel> {
    if start.has_network && config.networks.len() > 0 {
        match m.entropy.drawn(6) {
            Err(error) => Err(running::machine_fault(MachineError::Entropy(error))),
            Ok(random) => match slotted(
                MachineModel { entropy: m.entropy.rest(), ..m },
                SlotModel::Network(
                    MmioModel {
                        transport: TransportModel::fresh(1, 0x1_0020, seq![16u16, 16]),
                        device: NetworkModel {
                            backend: Seq::empty(),
                            mac: random.update(0, (random[0] | 0x02) & 0xfe),
                            receive: Seq::empty(),
                            carrier: false,
                        },
                    },
                ),
            ) {
                Ok(next) => Ok((Some(m.bus.virtio.len() as usize), next)),
                Err(error) => Err(error),
            },
        }
    } else {
        Ok((None, m))
    }
}

/// An input device as it comes.
pub open spec fn input_slot<E: EntropySource>(kind: InputKind) -> SlotModel<WebHost<E>> {
    SlotModel::Input(
        MmioModel {
            transport: TransportModel::fresh(18, 0, seq![256u16, 256]),
            device: InputModel { kind, select: 0, subsel: 0, events: Seq::empty(), buttons: 0 },
        },
    )
}

/// A machine with a keyboard and a tablet, if its configuration wants them.
pub open spec fn with_inputs<E: EntropySource>(
    m: MachineModel<WebHost<E>>,
    config: VmModel,
) -> Result<(Option<usize>, MachineModel<WebHost<E>>), ErrorModel> {
    if config.input_device == Some("virtio"@) {
        match slotted(m, input_slot(InputKind::Keyboard)) {
            Err(error) => Err(error),
            Ok(typed) => match slotted(typed, input_slot(InputKind::Tablet)) {
                Err(error) => Err(error),
                Ok(pointed) => Ok((Some(m.bus.virtio.len() as usize), pointed)),
            },
        }
    } else {
        Ok((None, m))
    }
}

impl LoadingModel {
    /// The images of the boot.
    pub open spec fn images(self) -> BootModel {
        BootModel {
            firmware: self.firmware->0,
            kernel: self.kernel,
            initrd: self.initrd,
            command_line: match self.config.command_line {
                Some(line) => line,
                None => ""@,
            },
        }
    }

    /// The machine that the downloaded files make, ready to run.
    #[verifier::opaque]
    pub open spec fn assembled<E: EntropySource>(
        self,
        entropy: Result<(Draws, Draws), EntropyError>,
    ) -> Result<RunningModel<E>, ErrorModel> {
        let layout = machine_config(self.start, self.config);
        if self.firmware is None {
            Err(ErrorModel::MissingFirmware)
        } else if let Err(error) = entropy {
            Err(running::machine_fault(MachineError::Entropy(error)))
        } else if let Some(error) = crate::machine::config_fault(layout) {
            Err(running::machine_fault(error))
        } else {
            let (own, device) = entropy->Ok_0;
            match with_drives::<E>(
                MachineModel::fresh(layout, own),
                self.drive_manifests,
                0,
            ) {
                Err(error) => Err(error),
                Ok(driven) => match with_filesystems(driven, self.config.filesystems, 0) {
                    Err(error) => Err(error),
                    Ok(served) => match with_console(served, self.config) {
                        Err(error) => Err(error),
                        Ok((console_slot, shown)) => match with_network(
                            shown,
                            self.start,
                            self.config,
                        ) {
                            Err(error) => Err(error),
                            Ok((network_slot, linked)) => match with_inputs(linked, self.config) {
                                Err(error) => Err(error),
                                Ok((keyboard_slot, operated)) => self.booted(
                                    operated,
                                    device,
                                    driven.bus.virtio.len(),
                                    console_slot,
                                    network_slot,
                                    keyboard_slot,
                                ),
                            },
                        },
                    },
                },
            }
        }
    }

    /// The machine with its last device and its boot images.
    pub open spec fn booted<E: EntropySource>(
        self,
        m: MachineModel<WebHost<E>>,
        device: Draws,
        first_channel: nat,
        console_slot: Option<usize>,
        network_slot: Option<usize>,
        keyboard_slot: Option<usize>,
    ) -> Result<RunningModel<E>, ErrorModel> {
        match slotted(
            m,
            SlotModel::Entropy(
                MmioModel { transport: TransportModel::fresh(4, 0, seq![16u16]), device },
            ),
        ) {
            Err(error) => Err(error),
            Ok(complete) => {
                let (r, machine) = complete.booted(self.images(), complete.entropy.drawn(32));
                match r {
                    Err(error) => Err(running::machine_fault(error)),
                    Ok(_) => Ok(
                        RunningModel {
                            machine,
                            console_slot,
                            uart_output: self.config.console == Console::Uart
                                || self.config.uart_output,
                            network_slot,
                            keyboard_slot,
                            pointer_slot: match keyboard_slot {
                                Some(slot) => Some((slot + 1) as usize),
                                None => None,
                            },
                            pointer_dimensions: dimensions(self.start, self.config),
                            block_slots: slots_from(0, self.drive_manifests.len()),
                            ninep_slots: slots_from(
                                first_channel,
                                self.config.filesystems.len(),
                            ),
                            ninep_endpoints: endpoints(
                                first_channel,
                                self.config.filesystems.len(),
                            ),
                            pending_http: Map::empty(),
                        },
                    ),
                }
            },
        }
    }
}

fn slot_of(r: Result<usize, MachineError>) -> (out: Result<usize, RuntimeError>)
    ensures
        running::outcome(out) == running::lifted(r),
{
    match r {
        Ok(slot) => Ok(slot),
        Err(error) => Err(running::fault(error)),
    }
}

fn copy_bytes(data: &Vec<u8>) -> (r: Vec<u8>)
    ensures
        r@ == data@,
{
    let r: Vec<u8> = crate::bytes::copy_range(data.as_slice(), 0, data.len());
    assert(r@ =~= data@);
    r
}

/// Adds the drives whose descriptors have been downloaded.
fn add_drives<E: EntropySource>(machine: &mut Machine<WebHost<E>>, manifests: &Vec<Manifest>) -> (r:
    Result<(), RuntimeError>)
    requires
        old(machine)@.valid(),
        old(machine)@.bus.virtio.len() == 0,
    ensures
        final(machine)@.valid(),
        match r {
            Ok(_) => with_drives(old(machine)@, manifest_models(manifests@), 0) == Ok::<
                MachineModel<WebHost<E>>,
                ErrorModel,
            >(final(machine)@) && final(machine)@.bus.virtio.len() == manifests@.len(),
            Err(error) => with_drives(old(machine)@, manifest_models(manifests@), 0) == Err::<
                MachineModel<WebHost<E>>,
                ErrorModel,
            >(error@),
        },
{
    let ghost models = manifest_models(manifests@);
    let ghost whole = with_drives(machine@, models, 0);
    let mut i: usize = 0;
    while i < manifests.len()
        invariant
            i <= manifests@.len(),
            machine@.valid(),
            machine@.bus.virtio.len() == i,
            models == manifest_models(manifests@),
            whole == with_drives(machine@, models, i as nat),
            whole == with_drives(old(machine)@, models, 0),
        decreases manifests@.len() - i,
    {
        assert(models[i as int] == (manifests@[i as int].url@, manifests@[i as int].data@));
        let source: String = match text::from_utf8(copy_bytes(&manifests[i].data)) {
            Some(source) => source,
            None => {
                return Err(RuntimeError::InvalidConfig("drive manifest is not UTF-8".to_owned()));
            },
        };
        let store: HttpBlockStore = match HttpBlockStore::from_manifest(
            manifests[i].url.as_str(),
            source.as_str(),
            DRIVE_CACHE,
        ) {
            Ok(store) => store,
            Err(error) => {
                return Err(RuntimeError::Machine(error.describe()));
            },
        };
        match slot_of(machine.add_http_block_device(store, make_drive_id(i))) {
            Ok(_) => {},
            Err(error) => {
                return Err(error);
            },
        }
        i = i + 1;
    }
    Ok(())
}

/// Adds the filesystems of a configuration.
fn add_filesystems<E: EntropySource>(machine: &mut Machine<WebHost<E>>, config: &VmConfig) -> (r:
    Result<(), RuntimeError>)
    requires
        old(machine)@.valid(),
    ensures
        final(machine)@.valid(),
        match r {
            Ok(_) => with_filesystems(old(machine)@, config@.filesystems, 0) == Ok::<
                MachineModel<WebHost<E>>,
                ErrorModel,
            >(final(machine)@) && final(machine)@.bus.virtio.len()
                == old(machine)@.bus.virtio.len() + config@.filesystems.len(),
            Err(error) => with_filesystems(old(machine)@, config@.filesystems, 0) == Err::<
                MachineModel<WebHost<E>>,
                ErrorModel,
            >(error@),
        },
{
    let ghost models = config@.filesystems;
    let ghost whole = with_filesystems(machine@, models, 0);
    let mut i: usize = 0;
    while i < config.filesystems.len()
        invariant
            i <= config.filesystems@.len(),
            i <= 29,
            machine@.valid(),
            machine@.bus.virtio.len() == old(machine)@.bus.virtio.len() + i,
            models == config::filesystem_models(config.filesystems@),
            whole == with_filesystems(machine@, models, i as nat),
            whole == with_filesystems(old(machine)@, models, 0),
        decreases config.filesystems@.len() - i,
    {
        assert(models[i as int] == config.filesystems@[i as int]@);
        let key: String = match &config.filesystems[i].backend {
            FilesystemBackend::Server(key) => crate::http_9p::copy_text(key.as_str()),
            _ => {
                return Err(
                    RuntimeError::InvalidConfig("unsupported filesystem backend".to_owned()),
                );
            },
        };
        let channel: BrowserNineP = BrowserNineP::new(NinePEndpointId(i as u32 + 1), key);
        let tag: Vec<u8> = text::bytes_of(config.filesystems[i].tag.as_str());
        match slot_of(machine.add_endpoint_device(channel, tag.as_slice())) {
            Ok(_) => {},
            Err(error) => {
                return Err(error);
            },
        }
        i = i + 1;
    }
    Ok(())
}

fn add_console<E: EntropySource>(machine: &mut Machine<WebHost<E>>, config: &VmConfig) -> (r:
    Result<Option<usize>, RuntimeError>)
    requires
        old(machine)@.valid(),
    ensures
        final(machine)@.valid(),
        match r {
            Ok(slot) => with_console(old(machine)@, config@) == Ok::<
                (Option<usize>, MachineModel<WebHost<E>>),
                ErrorModel,
            >((slot, final(machine)@)),
            Err(error) => with_console(old(machine)@, config@) == Err::<
                (Option<usize>, MachineModel<WebHost<E>>),
                ErrorModel,
            >(error@),
        },
{
    if config.console != Console::Virtio {
        return Ok(None);
    }
    match slot_of(machine.add_console_device(80, 25)) {
        Ok(slot) => Ok(Some(slot)),
        Err(error) => Err(error),
    }
}

fn add_network<E: EntropySource>(
    machine: &mut Machine<WebHost<E>>,
    start: &RuntimeStart,
    config: &VmConfig,
) -> (r: Result<Option<usize>, RuntimeError>)
    requires
        old(machine)@.valid(),
    ensures
        final(machine)@.valid(),
        match r {
            Ok(slot) => with_network(old(machine)@, start@, config@) == Ok::<
                (Option<usize>, MachineModel<WebHost<E>>),
                ErrorModel,
            >((slot, final(machine)@)),
            Err(error) => with_network(old(machine)@, start@, config@) == Err::<
                (Option<usize>, MachineModel<WebHost<E>>),
                ErrorModel,
            >(error@),
        },
{
    if !start.has_network || config.networks.len() == 0 {
        return Ok(None);
    }
    let mac: [u8; 6] = match machine.generate_network_mac() {
        Ok(mac) => mac,
        Err(error) => {
            return Err(running::fault(error));
        },
    };
    let network: OutputNetwork = OutputNetwork { packets: VecDeque::new() };
    assert(running::packet_models(network.packets@) =~= Seq::empty());
    match slot_of(machine.add_network_device(network, mac)) {
        Ok(slot) => Ok(Some(slot)),
        Err(error) => Err(error),
    }
}

fn add_inputs<E: EntropySource>(machine: &mut Machine<WebHost<E>>, config: &VmConfig) -> (r: Result<
    Option<usize>,
    RuntimeError,
>)
    requires
        old(machine)@.valid(),
    ensures
        final(machine)@.valid(),
        match r {
            Ok(slot) => with_inputs(old(machine)@, config@) == Ok::<
                (Option<usize>, MachineModel<WebHost<E>>),
                ErrorModel,
            >((slot, final(machine)@)) && (slot matches Some(slot) ==> slot < 29),
            Err(error) => with_inputs(old(machine)@, config@) == Err::<
                (Option<usize>, MachineModel<WebHost<E>>),
                ErrorModel,
            >(error@),
        },
{
    let wanted: bool = match &config.input_device {
        Some(device) => text::same(device.as_str(), "virtio"),
        None => false,
    };
    if !wanted {
        return Ok(None);
    }
    let keyboard: usize = match slot_of(machine.add_input_device(InputKind::Keyboard)) {
        Ok(slot) => slot,
        Err(error) => {
            return Err(error);
        },
    };
    match slot_of(machine.add_input_device(InputKind::Tablet)) {
        Ok(_) => Ok(Some(keyboard)),
        Err(error) => Err(error),
    }
}

fn slot_list(first: usize, count: usize) -> (r: Vec<usize>)
    requires
        first + count <= usize::MAX,
    ensures
        r@ == slots_from(first as nat, count as nat),
{
    let mut out: Vec<usize> = Vec::new();
    let mut i: usize = 0;
    while i < count
        invariant
            i <= count,
            first + count <= usize::MAX,
            out@ =~= slots_from(first as nat, i as nat),
        decreases count - i,
    {
        out.push(first + i);
        i = i + 1;
    }
    out
}

fn endpoint_map(first: usize, count: usize) -> (r: BTreeMap<u32, usize>)
    requires
        first + count <= 29,
    ensures
        r@ == endpoints(first as nat, count as nat),
{
    let mut out: BTreeMap<u32, usize> = BTreeMap::new();
    let mut i: usize = 0;
    while i < count
        invariant
            i <= count,
            first + count <= 29,
            out@ == endpoints(first as nat, i as nat),
        decreases count - i,
    {
        out.insert(i as u32 + 1, first + i);
        i = i + 1;
    }
    out
}

fn display_dimensions(start: &RuntimeStart, config: &VmConfig) -> (r: Option<(u32, u32)>)
    ensures
        r == dimensions(start@, config@),
{
    if start.width != 0 && start.height != 0 {
        Some((start.width, start.height))
    } else {
        match &config.display {
            Some(display) => Some((to_unsigned(display.width), to_unsigned(display.height))),
            None => None,
        }
    }
}

fn layout_of(start: &RuntimeStart, config: &VmConfig) -> (r: MachineConfig)
    ensures
        r == machine_config(start@, config@),
{
    let framebuffer: Option<FramebufferConfig> = match display_dimensions(start, config) {
        Some((width, height)) => if width != 0 && height != 0 {
            Some(FramebufferConfig { width, height })
        } else {
            None
        },
        None => None,
    };
    MachineConfig { ram_size: start.ram_mib as u64 * 0x10_0000, framebuffer }
}

/// The models of two handles on an entropy source, if it could be opened.
pub open spec fn sources<E: EntropySource>(entropy: Result<(E, E), EntropyError>) -> Result<
    (Draws, Draws),
    EntropyError,
> {
    match entropy {
        Ok((own, device)) => Ok((own.draws(), device.draws())),
        Err(error) => Err(error),
    }
}

impl Loading {
    /// Builds the machine that the downloaded files describe.
    fn assemble<E: EntropySource>(&self, entropy: Result<(E, E), EntropyError>) -> (r: Result<
        Running<E>,
        RuntimeError,
    >)
        ensures
            match r {
                Ok(running) => self@.assembled::<E>(sources(entropy)) == Ok::<
                    RunningModel<E>,
                    ErrorModel,
                >(running@) && running@.valid(),
                Err(error) => self@.assembled::<E>(sources(entropy)) == Err::<
                    RunningModel<E>,
                    ErrorModel,
                >(error@),
            },
    {
        reveal(LoadingModel::assembled);
        if self.firmware.is_none() {
            return Err(RuntimeError::MissingFirmware);
        }
        let (own, device) = match entropy {
            Ok(handles) => handles,
            Err(error) => {
                return Err(running::fault(MachineError::from(error)));
            },
        };
        let layout: MachineConfig = layout_of(&self.start, &self.config);
        let mut machine: Machine<WebHost<E>> = match Machine::new_with_entropy(layout, own) {
            Ok(machine) => machine,
            Err(error) => {
                return Err(running::fault(error));
            },
        };
        match add_drives(&mut machine, &self.drive_manifests) {
            Ok(()) => {},
            Err(error) => {
                return Err(error);
            },
        }
        let first_channel: usize = machine.bus.virtio.len();
        match add_filesystems(&mut machine, &self.config) {
            Ok(()) => {},
            Err(error) => {
                return Err(error);
            },
        }
        let console_slot: Option<usize> = match add_console(&mut machine, &self.config) {
            Ok(slot) => slot,
            Err(error) => {
                return Err(error);
            },
        };
        let network_slot: Option<usize> = match add_network(
            &mut machine,
            &self.start,
            &self.config,
        ) {
            Ok(slot) => slot,
            Err(error) => {
                return Err(error);
            },
        };
        let keyboard_slot: Option<usize> = match add_inputs(&mut machine, &self.config) {
            Ok(slot) => slot,
            Err(error) => {
                return Err(error);
            },
        };
        self.boot(machine, device, first_channel, console_slot, network_slot, keyboard_slot)
    }

    fn boot<E: EntropySource>(
        &self,
        machine: Machine<WebHost<E>>,
        device: E,
        first_channel: usize,
        console_slot: Option<usize>,
        network_slot: Option<usize>,
        keyboard_slot: Option<usize>,
    ) -> (r: Result<Running<E>, RuntimeError>)
        requires
            machine@.valid(),
            self@.firmware is Some,
            first_channel + self@.config.filesystems.len() <= 29,
            keyboard_slot matches Some(slot) ==> slot < 29,
        ensures
            match r {
                Ok(running) => self@.booted::<E>(
                    machine@,
                    device.draws(),
                    first_channel as nat,
                    console_slot,
                    network_slot,
                    keyboard_slot,
                ) == Ok::<RunningModel<E>, ErrorModel>(running@) && running@.valid(),
                Err(error) => self@.booted::<E>(
                    machine@,
                    device.draws(),
                    first_channel as nat,
                    console_slot,
                    network_slot,
                    keyboard_slot,
                ) == Err::<RunningModel<E>, ErrorModel>(error@),
            },
    {
        let mut machine: Machine<WebHost<E>> = machine;
        match slot_of(machine.add_entropy_device(device)) {
            Ok(_) => {},
            Err(error) => {
                return Err(error);
            },
        }
        let firmware: &[u8] = match &self.firmware {
            Some(data) => data.as_slice(),
            None => {
                return Err(RuntimeError::MissingFirmware);
            },
        };
        let kernel: Option<&[u8]> = match &self.kernel {
            Some(data) => Some(data.as_slice()),
            None => None,
        };
        let initrd: Option<&[u8]> = match &self.initrd {
            Some(data) => Some(data.as_slice()),
            None => None,
        };
        let command_line: &str = match &self.config.command_line {
            Some(line) => line.as_str(),
            None => "",
        };
        let images: BootImages<'_> = BootImages { firmware, kernel, initrd, command_line };
        assert(images@ =~= self@.images());
        match machine.load_boot(images) {
            Ok(_) => {},
            Err(error) => {
                return Err(running::fault(error));
            },
        }
        let pending_http: BTreeMap<u32, (usize, u32)> = BTreeMap::new();
        assert(pending_http@ =~= Map::empty());
        let count: usize = self.config.filesystems.len();
        Ok(
            Running {
                machine,
                console_slot,
                uart_output: self.config.console == Console::Uart || self.config.uart_output,
                network_slot,
                keyboard_slot,
                pointer_slot: match keyboard_slot {
                    Some(slot) => Some(slot + 1),
                    None => None,
                },
                pointer_dimensions: display_dimensions(&self.start, &self.config),
                block_slots: slot_list(0, self.drive_manifests.len()),
                ninep_slots: slot_list(first_channel, count),
                ninep_endpoints: endpoint_map(first_channel, count),
                pending_http,
            },
        )
    }
}

/// What a runtime is doing.
pub enum State<E: EntropySource> {
    VmInactive,
    Config { start: RuntimeStart, request_id: u32 },
    Loading(Loading),
    Running(Running<E>),
}

/// The model of what a runtime is doing.
pub enum StateModel<E: EntropySource> {
    VmInactive,
    Config { start: StartModel, request_id: u32 },
    Loading(LoadingModel),
    Running(RunningModel<E>),
}

impl<E: EntropySource> View for State<E> {
    type V = StateModel<E>;

    open spec fn view(&self) -> StateModel<E> {
        match self {
            State::VmInactive => StateModel::VmInactive,
            State::Config { start, request_id } => StateModel::Config {
                start: start@,
                request_id: *request_id,
            },
            State::Loading(loading) => StateModel::Loading(loading@),
            State::Running(running) => StateModel::Running(running@),
        }
    }
}

/// Counts over the last quantum.
#[derive(Clone, Copy, Debug, PartialEq, Eq, Structural)]
pub struct QuantumStatistics {
    pub cpu_runs: u32,
    pub timer_reprogramming_exits: u32,
    pub median_timer_interval_guest_ticks: u64,
    pub consumed_cycles: u64,
}

/// How a run of the CPU went.
#[derive(Clone, Copy, Debug, PartialEq, Eq, Structural)]
pub struct PlatformRunResult {
    pub consumed_cycles: u32,
    pub state: CpuRunExitReason,
}

/// A machine from its start by the page on: it is downloaded, assembled and run
/// in quanta.
pub struct BrowserRuntime<E: EntropySource> {
    pub state: State<E>,
    pub out: Outbox,
    pub diagnostics: bool,
    pub guest_clock_floor_ticks: u64,
    pub active_quantum: Option<ActiveQuantum>,
    pub last_quantum: QuantumStatistics,
}

/// The model of a runtime.
#[verifier::ext_equal]
pub struct RuntimeModel<E: EntropySource> {
    pub state: StateModel<E>,
    pub out: OutboxModel,
    pub diagnostics: bool,
    pub guest_clock_floor_ticks: u64,
    pub active_quantum: Option<QuantumModel>,
    pub last_quantum: QuantumStatistics,
}

/// The model of a quantum that may be missing.
pub open spec fn quantum_model(quantum: Option<ActiveQuantum>) -> Option<QuantumModel> {
    match quantum {
        Some(quantum) => Some(quantum@),
        None => None,
    }
}

impl<E: EntropySource> View for BrowserRuntime<E> {
    type V = RuntimeModel<E>;

    open spec fn view(&self) -> RuntimeModel<E> {
        RuntimeModel {
            state: self.state@,
            out: self.out@,
            diagnostics: self.diagnostics,
            guest_clock_floor_ticks: self.guest_clock_floor_ticks,
            active_quantum: quantum_model(self.active_quantum),
            last_quantum: self.last_quantum,
        }
    }
}

/// The assets that a configuration names, with where they are.
pub open spec fn named_assets(url: Seq<char>, config: VmModel) -> Seq<(AssetKind, Seq<char>)> {
    named(url, AssetKind::Firmware, config.bios) + named(url, AssetKind::Kernel, config.kernel)
        + named(url, AssetKind::Initrd, config.initrd) + drive_assets(
        url,
        config,
        config.drives.len(),
    )
}

/// An asset that a configuration may name.
pub open spec fn named(url: Seq<char>, kind: AssetKind, path: Option<Seq<char>>) -> Seq<
    (AssetKind, Seq<char>),
> {
    match path {
        Some(path) => seq![(kind, config::asset_path(Some(url), path))],
        None => Seq::empty(),
    }
}

/// The descriptors of the first drives.
pub open spec fn drive_assets(url: Seq<char>, config: VmModel, count: nat) -> Seq<
    (AssetKind, Seq<char>),
> {
    Seq::new(
        count,
        |i: int|
            (
                AssetKind::Drive(i as usize),
                config::asset_path(Some(url), config.drives[i].file),
            ),
    )
}

impl LoadingModel {
    /// The download of the files that a configuration names.
    pub open spec fn begun(start: StartModel, config: VmModel) -> LoadingModel {
        LoadingModel {
            start,
            config,
            assets: named_assets(start.config_url, config),
            waiting: None,
            firmware: None,
            kernel: None,
            initrd: None,
            drive_manifests: Seq::empty(),
        }
    }

    /// The download with the contents of a file.
    pub open spec fn with_file(self, kind: AssetKind, data: Seq<u8>) -> Result<
        LoadingModel,
        ErrorModel,
    > {
        let done = LoadingModel { waiting: None, ..self };
        match kind {
            AssetKind::Firmware => Ok(LoadingModel { firmware: Some(data), ..done }),
            AssetKind::Kernel => Ok(LoadingModel { kernel: Some(data), ..done }),
            AssetKind::Initrd => Ok(LoadingModel { initrd: Some(data), ..done }),
            AssetKind::Drive(index) => if index < self.config.drives.len() {
                Ok(
                    LoadingModel {
                        drive_manifests: self.drive_manifests.push(
                            (
                                config::asset_path(
                                    Some(self.start.config_url),
                                    self.config.drives[index as int].file,
                                ),
                                data,
                            ),
                        ),
                        ..done
                    },
                )
            } else {
                Err(ErrorModel::InvalidConfig("invalid drive index"@))
            },
        }
    }
}

impl<E: EntropySource> RuntimeModel<E> {
    pub open spec fn valid(self) -> bool {
        &&& self.state matches StateModel::Running(running) ==> running.valid()
        &&& self.active_quantum matches Some(quantum) ==> quantum.valid()
    }

    pub open spec fn initial() -> RuntimeModel<E> {
        RuntimeModel {
            state: StateModel::VmInactive,
            out: OutboxModel { next_request_id: 1, actions: Seq::empty() },
            diagnostics: false,
            guest_clock_floor_ticks: 0,
            active_quantum: None,
            last_quantum: QuantumStatistics {
                cpu_runs: 0,
                timer_reprogramming_exits: 0,
                median_timer_interval_guest_ticks: 0,
                consumed_cycles: 0,
            },
        }
    }

    pub open spec fn with_state(self, state: StateModel<E>) -> RuntimeModel<E> {
        RuntimeModel { state, ..self }
    }

    /// A runtime with other contents of its outbox and a running machine.
    pub open spec fn with_running(self, running: RunningModel<E>, out: OutboxModel) -> RuntimeModel<
        E,
    > {
        RuntimeModel { state: StateModel::Running(running), out, ..self }
    }

    /// A runtime whose machine is gone.
    pub open spec fn stopped(self) -> RuntimeModel<E> {
        self.with_state(StateModel::VmInactive)
    }

    /// Passes what the 9p devices want on to the page.
    pub open spec fn channels_pumped(self) -> (Result<(), ErrorModel>, RuntimeModel<E>) {
        match self.state {
            StateModel::Running(running) => {
                let (r, next, out) = running.channels_pumped(0, self.out);
                (r, self.with_running(next, out))
            },
            _ => (Ok(()), self),
        }
    }

    /// Passes what the devices want on to the page. A drive that is none stops
    /// the machine.
    #[verifier::opaque]
    pub open spec fn pumped(self) -> (Result<(), ErrorModel>, RuntimeModel<E>) {
        match self.state {
            StateModel::Running(running) => {
                let (r, next, out) = running.drives_pumped(0, self.out);
                match r {
                    Err(error) => (
                        Err(error),
                        RuntimeModel { state: StateModel::VmInactive, out, ..self },
                    ),
                    Ok(_) => self.with_running(next, out).channels_pumped(),
                }
            },
            _ => (Ok(()), self.stopped()),
        }
    }

    /// Begins with a download that has nothing left to ask for: the machine is
    /// assembled and started.
    pub open spec fn loaded(
        self,
        loading: LoadingModel,
        entropy: Result<(Draws, Draws), EntropyError>,
    ) -> (Result<(), ErrorModel>, RuntimeModel<E>) {
        match loading.assembled::<E>(entropy) {
            Err(error) => (Err(error), self.stopped()),
            Ok(running) => {
                let (r, opened) = self.with_state(StateModel::Running(running)).channels_pumped();
                match r {
                    Err(_) => (r, opened),
                    Ok(_) => RuntimeModel {
                        out: opened.out.with_action(HostActionModel::Started),
                        ..opened
                    }.pumped(),
                }
            },
        }
    }

    /// Goes on with a download: the next file, or the machine.
    pub open spec fn advanced_loading(
        self,
        loading: LoadingModel,
        entropy: Result<(Draws, Draws), EntropyError>,
    ) -> (Result<(), ErrorModel>, RuntimeModel<E>) {
        if loading.assets.len() > 0 {
            let (kind, url) = loading.assets[0];
            (
                Ok(()),
                RuntimeModel {
                    state: StateModel::Loading(
                        LoadingModel {
                            assets: loading.assets.skip(1),
                            waiting: Some((self.out.next_request_id, kind)),
                            ..loading
                        },
                    ),
                    out: self.out.requested(url),
                    ..self
                },
            )
        } else {
            self.loaded(loading, entropy)
        }
    }

    /// A configuration has come.
    #[verifier::opaque]
    pub open spec fn configured(
        self,
        start: StartModel,
        data: Seq<u8>,
        entropy: Result<(Draws, Draws), EntropyError>,
    ) -> (Result<(), ErrorModel>, RuntimeModel<E>) {
        if !vstd::utf8::valid_utf8(data) {
            (
                Err(ErrorModel::InvalidConfig("configuration is not UTF-8"@)),
                self.stopped(),
            )
        } else {
            match config::configuration(
                vstd::utf8::encode_utf8(vstd::utf8::decode_utf8(data)),
            ) {
                Err(reason) => (Err(ErrorModel::InvalidConfig(reason)), self.stopped()),
                Ok(config) => {
                    let chosen = if start.command_line.len() > 0 {
                        config.with_command_line(start.command_line)
                    } else {
                        config
                    };
                    self.advanced_loading(LoadingModel::begun(start, chosen), entropy)
                },
            }
        }
    }

    /// The answer to a request for a file of the machine has come.
    #[verifier::opaque]
    pub open spec fn file_answered(
        self,
        loading: LoadingModel,
        id: u32,
        data: Seq<u8>,
        entropy: Result<(Draws, Draws), EntropyError>,
    ) -> (Result<(), ErrorModel>, RuntimeModel<E>) {
        match loading.waiting {
            Some((request_id, kind)) if request_id == id => match loading.with_file(kind, data) {
                Err(error) => (Err(error), self.stopped()),
                Ok(next) => self.advanced_loading(next, entropy),
            },
            _ => (
                Err(ErrorModel::UnexpectedResponse(id)),
                self.with_state(StateModel::Loading(loading)),
            ),
        }
    }

    /// The answer to a request of a drive has come.
    #[verifier::opaque]
    pub open spec fn drive_answered(self, running: RunningModel<E>, id: u32, data: Seq<u8>) -> (
        Result<(), ErrorModel>,
        RuntimeModel<E>,
    ) {
        if running.pending_http.contains_key(id) {
            let (slot, request) = running.pending_http[id];
            let (r, machine) = running.machine.block_answer(slot as int, request, data);
            match r {
                Err(error) => (Err(running::machine_fault(error)), self.stopped()),
                Ok(_) => self.with_state(
                    StateModel::Running(
                        RunningModel {
                            machine,
                            pending_http: running.pending_http.remove(id),
                            ..running
                        },
                    ),
                ).pumped(),
            }
        } else {
            (
                Err(ErrorModel::UnexpectedResponse(id)),
                self.with_state(StateModel::Running(running)),
            )
        }
    }

    /// The answer to an HTTP request has come.
    pub open spec fn answered(
        self,
        id: u32,
        status: u16,
        data: Seq<u8>,
        entropy: Result<(Draws, Draws), EntropyError>,
    ) -> (Result<(), ErrorModel>, RuntimeModel<E>) {
        if status < 200 || status >= 300 {
            (Err(ErrorModel::HttpStatus(status)), self)
        } else {
            match self.state {
                StateModel::Config { start, request_id } if request_id == id => self.stopped(
                ).configured(start, data, entropy),
                StateModel::Loading(loading) => self.stopped().file_answered(
                    loading,
                    id,
                    data,
                    entropy,
                ),
                StateModel::Running(running) => self.stopped().drive_answered(running, id, data),
                _ => (Err(ErrorModel::UnexpectedResponse(id)), self),
            }
        }
    }

    /// The answer to a 9p request has come. A failing endpoint stops the
    /// machine, which is no error.
    pub open spec fn ninep_answered(
        self,
        endpoint: u32,
        generation: u32,
        request: u32,
        outcome: OutcomeModel,
    ) -> (Result<(), ErrorModel>, RuntimeModel<E>) {
        match self.state {
            StateModel::Running(running) => if running.ninep_endpoints.contains_key(endpoint) {
                let slot = running.ninep_endpoints[endpoint] as int;
                let (r, machine) = running.machine.ninep_answer(
                    slot,
                    generation,
                    request,
                    outcome,
                );
                match r {
                    Ok(_) => self.with_state(
                        StateModel::Running(running.with_machine(machine)),
                    ).pumped(),
                    Err(error) => if outcome is EndpointFailure {
                        (Ok(()), self.stopped())
                    } else {
                        (Err(running::machine_fault(error)), self.stopped())
                    },
                }
            } else {
                (Err(ErrorModel::Machine("unknown 9p endpoint"@)), self)
            },
            _ => (
                Err(ErrorModel::Machine("9p completion without a running VM"@)),
                self.stopped(),
            ),
        }
    }

    /// One bounded run of the CPU, with its input and output; nothing without a
    /// machine.
    #[verifier::opaque]
    pub open spec fn ran_once(
        self,
        input: ControllerModel,
        ticks: u64,
        nanoseconds: u64,
        limit: u32,
    ) -> (
        Result<Option<PlatformRunResult>, ErrorModel>,
        RuntimeModel<E>,
        ControllerModel,
    ) {
        match self.state {
            StateModel::Running(running) => {
                let (r, next, rest, actions) = running.stepped(
                    input,
                    self.out.actions,
                    ticks,
                    nanoseconds,
                    limit,
                );
                let after = self.with_running(next, OutboxModel { actions, ..self.out });
                match r {
                    Err(error) => (Err(error), after, rest),
                    Ok(run) => {
                        let (p, end) = after.pumped();
                        match p {
                            Err(error) => (Err(error), end, rest),
                            Ok(_) => (
                                Ok(
                                    Some(
                                        PlatformRunResult {
                                            consumed_cycles: run.consumed_cycles,
                                            state: run.state,
                                        },
                                    ),
                                ),
                                end,
                                rest,
                            ),
                        }
                    },
                }
            },
            _ => (Ok(None), self, input),
        }
    }

    /// The runtime at a guest time, and the ticks until the next timer.
    #[verifier::opaque]
    pub open spec fn timer_asked(self, ticks: u64) -> (Option<u64>, RuntimeModel<E>) {
        match self.state {
            StateModel::Running(running) => {
                let machine = running.machine.at(
                    ticks,
                    quantum::saturating_product(ticks, NANOSECONDS_PER_GUEST_TICK),
                );
                (
                    machine.next_timer(),
                    self.with_state(StateModel::Running(running.with_machine(machine))),
                )
            },
            _ => (None, self),
        }
    }
}

fn push_asset(assets: &mut VecDeque<Asset>, kind: AssetKind, url: &str, path: &str)
    ensures
        asset_models(final(assets)@) == asset_models(old(assets)@).push(
            (kind, config::asset_path(Some(url@), path@)),
        ),
{
    let asset: Asset = Asset { kind, url: config::resolve_asset_path(Some(url), path) };
    assets.push_back(asset);
    assert(asset_models(assets@) =~= asset_models(old(assets)@).push(
        (kind, config::asset_path(Some(url@), path@)),
    ));
}

fn push_named(assets: &mut VecDeque<Asset>, kind: AssetKind, url: &str, path: &Option<String>)
    ensures
        asset_models(final(assets)@) == asset_models(old(assets)@) + named(
            url@,
            kind,
            config::chars_of_option(*path),
        ),
{
    match path {
        Some(path) => {
            push_asset(assets, kind, url, path.as_str());
            assert(asset_models(assets@) =~= asset_models(old(assets)@) + seq![
                (kind, config::asset_path(Some(url@), path@)),
            ]);
        },
        None => {
            assert(asset_models(assets@) =~= asset_models(old(assets)@) + Seq::<
                (AssetKind, Seq<char>),
            >::empty());
        },
    }
}

/// The files that a configuration names, in the order of their download.
fn list_assets(url: &str, config: &VmConfig) -> (r: VecDeque<Asset>)
    ensures
        asset_models(r@) == named_assets(url@, config@),
{
    let mut assets: VecDeque<Asset> = VecDeque::new();
    assert(asset_models(assets@) =~= Seq::empty());
    push_named(&mut assets, AssetKind::Firmware, url, &config.bios);
    push_named(&mut assets, AssetKind::Kernel, url, &config.kernel);
    push_named(&mut assets, AssetKind::Initrd, url, &config.initrd);
    let ghost images = asset_models(assets@);
    assert(images =~= named(url@, AssetKind::Firmware, config@.bios) + named(
        url@,
        AssetKind::Kernel,
        config@.kernel,
    ) + named(url@, AssetKind::Initrd, config@.initrd));
    let mut i: usize = 0;
    assert(images =~= images + drive_assets(url@, config@, 0));
    while i < config.drives.len()
        invariant
            i <= config.drives@.len(),
            asset_models(assets@) == images + drive_assets(url@, config@, i as nat),
        decreases config.drives@.len() - i,
    {
        push_asset(&mut assets, AssetKind::Drive(i), url, config.drives[i].file.as_str());
        assert(config@.drives[i as int] == config.drives@[i as int]@);
        assert(asset_models(assets@) =~= images + drive_assets(url@, config@, (i + 1) as nat));
        i = i + 1;
    }
    assets
}

impl Loading {
    /// Where the descriptor of a drive is.
    ///
    /// # Errors
    ///
    /// Returns an error for a drive that the configuration does not have.
    fn config_asset_url(&self, index: usize) -> (r: Result<String, RuntimeError>)
        ensures
            match r {
                Ok(url) => index < self@.config.drives.len() && url@ == config::asset_path(
                    Some(self@.start.config_url),
                    self@.config.drives[index as int].file,
                ),
                Err(error) => index >= self@.config.drives.len() && error@
                    == ErrorModel::InvalidConfig("invalid drive index"@),
            },
    {
        if index < self.config.drives.len() {
            assert(self@.config.drives[index as int] == self.config.drives@[index as int]@);
            Ok(
                config::resolve_asset_path(
                    Some(self.start.config_url.as_str()),
                    self.config.drives[index].file.as_str(),
                ),
            )
        } else {
            Err(RuntimeError::InvalidConfig("invalid drive index".to_owned()))
        }
    }

    /// Stores the contents of a file.
    fn store(&mut self, kind: AssetKind, data: Vec<u8>) -> (r: Result<(), RuntimeError>)
        ensures
            match r {
                Ok(_) => old(self)@.with_file(kind, data@) == Ok::<LoadingModel, ErrorModel>(
                    final(self)@,
                ),
                Err(error) => old(self)@.with_file(kind, data@) == Err::<LoadingModel, ErrorModel>(
                    error@,
                ),
            },
    {
        self.waiting = None;
        match kind {
            AssetKind::Firmware => {
                self.firmware = Some(data);
            },
            AssetKind::Kernel => {
                self.kernel = Some(data);
            },
            AssetKind::Initrd => {
                self.initrd = Some(data);
            },
            AssetKind::Drive(index) => {
                let url: String = match self.config_asset_url(index) {
                    Ok(url) => url,
                    Err(error) => {
                        return Err(error);
                    },
                };
                let ghost entry = (url@, data@);
                self.drive_manifests.push(Manifest { url, data });
                assert(manifest_models(self.drive_manifests@) =~= old(self)@.drive_manifests.push(
                    entry,
                ));
            },
        }
        Ok(())
    }
}

impl<E: EntropySource> Default for BrowserRuntime<E> {
    fn default() -> (r: Self)
        ensures
            r@ == RuntimeModel::<E>::initial(),
            r@.valid(),
    {
        let actions: VecDeque<HostAction> = VecDeque::new();
        assert(running::host_actions(actions@) =~= Seq::empty());
        BrowserRuntime {
            state: State::VmInactive,
            out: Outbox { next_request_id: 1, actions },
            diagnostics: false,
            guest_clock_floor_ticks: 0,
            active_quantum: None,
            last_quantum: QuantumStatistics {
                cpu_runs: 0,
                timer_reprogramming_exits: 0,
                median_timer_interval_guest_ticks: 0,
                consumed_cycles: 0,
            },
        }
    }
}

impl<E: EntropySource> BrowserRuntime<E> {
    /// Takes the state out and leaves none.
    fn take_state(&mut self) -> (r: State<E>)
        ensures
            r@ == old(self)@.state,
            final(self)@ == old(self)@.stopped(),
    {
        let mut state: State<E> = State::VmInactive;
        std::mem::swap(&mut state, &mut self.state);
        state
    }

    /// Begins loading a VM configuration.
    ///
    /// # Errors
    ///
    /// Returns `AlreadyStarted` unless the runtime is idle.
    pub fn start(&mut self, start: RuntimeStart) -> (r: Result<(), RuntimeError>)
        requires
            old(self)@.valid(),
        ensures
            old(self)@.state is VmInactive ==> r is Ok && final(self)@ == (RuntimeModel {
                state: StateModel::Config {
                    start: start@,
                    request_id: old(self)@.out.next_request_id,
                },
                out: old(self)@.out.requested(start@.config_url),
                ..old(self)@
            }),
            old(self)@.state !is VmInactive ==> (r matches Err(error) && error@
                == ErrorModel::AlreadyStarted) && final(self)@ == old(self)@,
            final(self)@.valid(),
    {
        match &self.state {
            State::VmInactive => {},
            _ => {
                return Err(RuntimeError::AlreadyStarted);
            },
        }
        let request_id: u32 = self.out.allocate_request(start.config_url.as_str());
        self.state = State::Config { start, request_id };
        Ok(())
    }

    fn pump_ninep_transport_actions(&mut self) -> (r: Result<(), RuntimeError>)
        requires
            old(self)@.valid(),
        ensures
            (running::outcome(r), final(self)@) == old(self)@.channels_pumped(),
            final(self)@.valid(),
    {
        match &mut self.state {
            State::Running(running) => running.pump_channels(&mut self.out),
            _ => Ok(()),
        }
    }

    fn pump_http_requests(&mut self) -> (r: Result<(), RuntimeError>)
        requires
            old(self)@.valid(),
        ensures
            (running::outcome(r), final(self)@) == old(self)@.pumped(),
            final(self)@.valid(),
    {
        reveal(RuntimeModel::pumped);
        match self.take_state() {
            State::Running(mut running) => {
                match running.pump_drives(&mut self.out) {
                    Ok(()) => {},
                    Err(error) => {
                        return Err(error);
                    },
                }
                self.state = State::Running(running);
                self.pump_ninep_transport_actions()
            },
            _ => Ok(()),
        }
    }

    fn finish_loading(&mut self, loading: Loading, entropy: Result<(E, E), EntropyError>) -> (r:
        Result<(), RuntimeError>)
        requires
            old(self)@.valid(),
            old(self)@.state is VmInactive,
        ensures
            (running::outcome(r), final(self)@) == old(self)@.loaded(loading@, sources(entropy)),
            final(self)@.valid(),
    {
        match loading.assemble(entropy) {
            Ok(running) => {
                self.state = State::Running(running);
            },
            Err(error) => {
                return Err(error);
            },
        }
        match self.pump_ninep_transport_actions() {
            Ok(()) => {},
            Err(error) => {
                return Err(error);
            },
        }
        self.out.push(HostAction::Started);
        self.pump_http_requests()
    }

    fn request_next_asset(&mut self, loading: Loading, entropy: Result<(E, E), EntropyError>) -> (r:
        Result<(), RuntimeError>)
        requires
            old(self)@.valid(),
            old(self)@.state is VmInactive,
        ensures
            (running::outcome(r), final(self)@) == old(self)@.advanced_loading(
                loading@,
                sources(entropy),
            ),
            final(self)@.valid(),
    {
        let ghost before = loading@;
        let mut loading: Loading = loading;
        let ghost held = loading.assets@;
        match loading.assets.pop_front() {
            Some(asset) => {
                assert(held.len() > 0 && before.assets.len() == held.len());
                assert(asset_models(loading.assets@) =~= before.assets.skip(1));
                let id: u32 = self.out.allocate_request(asset.url.as_str());
                loading.waiting = Some((id, asset.kind));
                self.state = State::Loading(loading);
                Ok(())
            },
            None => {
                assert(asset_models(loading.assets@) =~= before.assets);
                assert(loading@ =~= before);
                self.finish_loading(loading, entropy)
            },
        }
    }

    fn begin_loading(
        &mut self,
        start: RuntimeStart,
        data: Vec<u8>,
        entropy: Result<(E, E), EntropyError>,
    ) -> (r: Result<(), RuntimeError>)
        requires
            old(self)@.valid(),
            old(self)@.state is VmInactive,
        ensures
            (running::outcome(r), final(self)@) == old(self)@.configured(
                start@,
                data@,
                sources(entropy),
            ),
            final(self)@.valid(),
    {
        reveal(RuntimeModel::configured);
        let source: String = match text::from_utf8(data) {
            Some(source) => source,
            None => {
                return Err(RuntimeError::InvalidConfig("configuration is not UTF-8".to_owned()));
            },
        };
        let mut config: VmConfig = match VmConfig::parse(source.as_str()) {
            Ok(config) => config,
            Err(error) => {
                return Err(RuntimeError::InvalidConfig(error.0));
            },
        };
        let letters: Vec<char> = text::chars_of(start.command_line.as_str());
        if letters.len() > 0 {
            config.apply_command_line(start.command_line.as_str());
        }
        let assets: VecDeque<Asset> = list_assets(start.config_url.as_str(), &config);
        let loading: Loading = Loading {
            start,
            config,
            assets,
            waiting: None,
            firmware: None,
            kernel: None,
            initrd: None,
            drive_manifests: Vec::new(),
        };
        assert(loading@.drive_manifests =~= Seq::empty());
        assert(loading@ =~= LoadingModel::begun(start@, config@));
        self.request_next_asset(loading, entropy)
    }

    /// Supplies the response for the currently pending HTTP request. The
    /// handles on the host's entropy source go into the machine if this
    /// response completes it.
    ///
    /// # Errors
    ///
    /// Returns an error for an unexpected request, failed HTTP status, malformed
    /// configuration, unsupported browser device, or invalid machine layout.
    pub fn complete_http(
        &mut self,
        id: u32,
        status: u16,
        data: Vec<u8>,
        entropy: Result<(E, E), EntropyError>,
    ) -> (r: Result<(), RuntimeError>)
        requires
            old(self)@.valid(),
        ensures
            (running::outcome(r), final(self)@) == old(self)@.answered(
                id,
                status,
                data@,
                sources(entropy),
            ),
            final(self)@.valid(),
    {
        if status < 200 || status >= 300 {
            return Err(RuntimeError::HttpStatus(status));
        }
        match self.take_state() {
            State::VmInactive => Err(RuntimeError::UnexpectedResponse(id)),
            State::Config { start, request_id } => {
                if request_id != id {
                    self.state = State::Config { start, request_id };
                    return Err(RuntimeError::UnexpectedResponse(id));
                }
                self.begin_loading(start, data, entropy)
            },
            State::Loading(loading) => self.complete_file(loading, id, data, entropy),
            State::Running(running) => self.complete_block(running, id, data),
        }
    }

    fn complete_file(
        &mut self,
        loading: Loading,
        id: u32,
        data: Vec<u8>,
        entropy: Result<(E, E), EntropyError>,
    ) -> (r: Result<(), RuntimeError>)
        requires
            old(self)@.valid(),
            old(self)@.state is VmInactive,
        ensures
            (running::outcome(r), final(self)@) == old(self)@.file_answered(
                loading@,
                id,
                data@,
                sources(entropy),
            ),
            final(self)@.valid(),
    {
        reveal(RuntimeModel::file_answered);
        let mut loading: Loading = loading;
        let kind: AssetKind = match loading.waiting {
            Some((request_id, kind)) if request_id == id => kind,
            _ => {
                self.state = State::Loading(loading);
                return Err(RuntimeError::UnexpectedResponse(id));
            },
        };
        match loading.store(kind, data) {
            Ok(()) => {},
            Err(error) => {
                return Err(error);
            },
        }
        self.request_next_asset(loading, entropy)
    }

    fn complete_block(&mut self, running: Running<E>, id: u32, data: Vec<u8>) -> (r: Result<
        (),
        RuntimeError,
    >)
        requires
            old(self)@.valid(),
            old(self)@.state is VmInactive,
            running@.valid(),
        ensures
            (running::outcome(r), final(self)@) == old(self)@.drive_answered(running@, id, data@),
            final(self)@.valid(),
    {
        reveal(RuntimeModel::drive_answered);
        let mut running: Running<E> = running;
        let ghost before = running@;
        let (slot, request) = match running.pending_http.remove(&id) {
            Some(pending) => pending,
            None => {
                assert(running@.pending_http =~= before.pending_http);
                self.state = State::Running(running);
                return Err(RuntimeError::UnexpectedResponse(id));
            },
        };
        match running.machine.complete_http_block_request(slot, request, data) {
            Ok(()) => {},
            Err(error) => {
                return Err(running::fault(error));
            },
        }
        self.state = State::Running(running);
        self.pump_http_requests()
    }

    /// Completes one asynchronous browser 9p request.
    ///
    /// # Errors
    ///
    /// Returns an error for an unknown endpoint, current-generation duplicate,
    /// malformed response, endpoint failure, or invalid guest descriptor.
    pub fn complete_ninep(
        &mut self,
        endpoint: NinePEndpointId,
        generation: NinePGeneration,
        request_id: NinePRequestId,
        outcome: NinePOutcome,
    ) -> (r: Result<(), RuntimeError>)
        requires
            old(self)@.valid(),
        ensures
            (running::outcome(r), final(self)@) == old(self)@.ninep_answered(
                endpoint.0,
                generation.0,
                request_id.0,
                outcome@,
            ),
            final(self)@.valid(),
    {
        match self.take_state() {
            State::Running(mut running) => {
                let slot: usize = match running.ninep_endpoints.get(&endpoint.0) {
                    Some(slot) => *slot,
                    None => {
                        self.state = State::Running(running);
                        return Err(RuntimeError::Machine("unknown 9p endpoint".to_owned()));
                    },
                };
                let failure: bool = match &outcome {
                    NinePOutcome::EndpointFailure => true,
                    _ => false,
                };
                match running.machine.complete_ninep_transport_request(
                    slot,
                    generation,
                    request_id,
                    outcome,
                ) {
                    Ok(()) => {},
                    Err(error) => {
                        if failure {
                            return Ok(());
                        }
                        return Err(running::fault(error));
                    },
                }
                self.state = State::Running(running);
                self.pump_http_requests()
            },
            _ => Err(RuntimeError::Machine("9p completion without a running VM".to_owned())),
        }
    }

    /// Runs one bounded interpreter slice and collects host-facing output.
    ///
    /// # Errors
    ///
    /// Returns an error when queued input exposes an invalid guest device queue.
    pub fn run_cpu_once(
        &mut self,
        input_queue: &mut BrowserController,
        guest_timer_ticks: u64,
        guest_rtc_ns: u64,
        cycle_limit_cycles: u32,
    ) -> (r: Result<Option<PlatformRunResult>, RuntimeError>)
        requires
            old(self)@.valid(),
        ensures
            (running::outcome(r), final(self)@, final(input_queue)@) == old(self)@.ran_once(
                old(input_queue)@,
                guest_timer_ticks,
                guest_rtc_ns,
                cycle_limit_cycles,
            ),
            final(self)@.valid(),
            r matches Ok(Some(run)) ==> run.consumed_cycles <= cycle_limit_cycles,
    {
        reveal(RuntimeModel::ran_once);
        let run: CpuRun = match &mut self.state {
            State::Running(running) => match running.step(
                input_queue,
                &mut self.out,
                guest_timer_ticks,
                guest_rtc_ns,
                cycle_limit_cycles,
            ) {
                Ok(run) => run,
                Err(error) => {
                    return Err(error);
                },
            },
            _ => {
                return Ok(None);
            },
        };
        match self.pump_http_requests() {
            Ok(()) => Ok(
                Some(PlatformRunResult { consumed_cycles: run.consumed_cycles, state: run.state }),
            ),
            Err(error) => Err(error),
        }
    }

    /// The guest ticks until the next timer at a guest time.
    #[must_use]
    pub fn next_timer_remaining_guest_ticks(&mut self, ticks: u64) -> (r: Option<u64>)
        requires
            old(self)@.valid(),
        ensures
            (r, final(self)@) == old(self)@.timer_asked(ticks),
            final(self)@.valid(),
    {
        reveal(RuntimeModel::timer_asked);
        match &mut self.state {
            State::Running(running) => {
                let nanoseconds: u64 = match ticks.checked_mul(NANOSECONDS_PER_GUEST_TICK) {
                    Some(nanoseconds) => nanoseconds,
                    None => u64::MAX,
                };
                running.machine.present_guest_clocks(ticks, nanoseconds);
                running.machine.next_timer_remaining_guest_ticks()
            },
            _ => None,
        }
    }

    pub fn next_action(&mut self) -> (r: Option<HostAction>)
        ensures
            match r {
                Some(action) => old(self)@.out.actions.len() > 0 && action@
                    == old(self)@.out.actions[0] && final(self)@ == (RuntimeModel {
                    out: OutboxModel {
                        actions: old(self)@.out.actions.skip(1),
                        ..old(self)@.out
                    },
                    ..old(self)@
                }),
                None => old(self)@.out.actions.len() == 0 && final(self)@ == old(self)@,
            },
            old(self)@.valid() ==> final(self)@.valid(),
    {
        let ghost held = self.out.actions@;
        let action: Option<HostAction> = self.out.actions.pop_front();
        assert(action is Some ==> held.len() > 0 && running::host_actions(self.out.actions@)
            =~= old(self)@.out.actions.skip(1));
        assert(action is None ==> running::host_actions(self.out.actions@)
            =~= old(self)@.out.actions);
        action
    }

    #[must_use]
    pub fn framebuffer_bytes(&self, update: FramebufferUpdate) -> (r: Option<&[u8]>)
        requires
            self@.valid(),
        ensures
            match self@.state {
                StateModel::Running(running) => match running.machine.display_bytes(update) {
                    Some(data) => r matches Some(shown) && shown@ == data,
                    None => r is None,
                },
                _ => r is None,
            },
    {
        match &self.state {
            State::Running(running) => running.machine.framebuffer_bytes(update),
            _ => None,
        }
    }

    #[must_use]
    pub fn is_running(&self) -> (r: bool)
        ensures
            r == (self@.state is Running),
    {
        match &self.state {
            State::Running(_) => true,
            _ => false,
        }
    }
}

} // verus!
