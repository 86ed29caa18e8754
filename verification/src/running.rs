//! A running machine behind a web page: input goes in, a bounded run is made,
//! and what the page has to do comes out.

use std::collections::{BTreeMap, VecDeque};
use vstd::prelude::*;
use crate::browser::{BrowserController, BrowserEvent, ControllerModel, EventModel, TerminalSize};
use crate::browser_storage::{self, HttpBlockStore};
use crate::bytes;
use crate::entropy::EntropySource;
use crate::machine::{
    CpuRun, FramebufferUpdate, Host, Machine, MachineError, MachineModel, RedrawSpan, SlotModel,
    VirtioSlot,
};
use crate::ninep::{ActionModel, NinePTransportAction};
use crate::quantum;
use crate::virtio_devices::{DeviceError, MmioModel, NetworkBackend, NetworkModel, NinePBackend};

verus! {

/// A network whose frames wait for the page.
pub struct OutputNetwork {
    pub packets: VecDeque<Vec<u8>>,
}

pub open spec fn packet_models(packets: Seq<Vec<u8>>) -> Seq<Seq<u8>> {
    packets.map_values(|packet: Vec<u8>| packet@)
}

impl NetworkBackend for OutputNetwork {
    type Model = Seq<Seq<u8>>;

    open spec fn model(&self) -> Seq<Seq<u8>> {
        packet_models(self.packets@)
    }

    open spec fn transmits(m: Seq<Seq<u8>>, packet: Seq<u8>) -> (
        Result<(), DeviceError>,
        Seq<Seq<u8>>,
    ) {
        (Ok(()), m.push(packet))
    }

    fn transmit(&mut self, packet: &[u8]) -> (r: Result<(), DeviceError>) {
        let copy: Vec<u8> = bytes::copy_range(packet, 0, packet.len());
        assert(copy@ =~= packet@);
        self.packets.push_back(copy);
        assert(packet_models(self.packets@) =~= packet_models(old(self).packets@).push(packet@));
        Ok(())
    }
}

/// A 9p server that refuses every request.
pub struct NoServer;

impl NinePBackend for NoServer {
    type Model = ();

    open spec fn model(&self) -> () {
        ()
    }

    open spec fn valid(m: ()) -> bool {
        true
    }

    open spec fn transacts(m: (), request: Seq<u8>) -> (Result<Seq<u8>, DeviceError>, ()) {
        (Err(DeviceError::Backend), ())
    }

    fn transact(&mut self, request: &[u8]) -> (r: Result<Vec<u8>, DeviceError>) {
        Err(DeviceError::Backend)
    }
}

/// A web page as the host of a machine.
pub struct WebHost<E: EntropySource> {
    pub entropy: Option<E>,
}

impl<E: EntropySource> Host for WebHost<E> {
    type Entropy = E;

    type Block = HttpBlockStore;

    type Network = OutputNetwork;

    type NineP = NoServer;
}

/// An HTTP request that the page sends.
#[derive(Clone, Debug, PartialEq, Eq)]
pub struct HttpRequest {
    pub id: u32,
    pub url: String,
}

/// What the page has to do.
#[derive(Clone, Debug, PartialEq, Eq)]
pub enum HostAction {
    Request(HttpRequest),
    Started,
    Console(Vec<u8>),
    Network(Vec<u8>),
    Framebuffer(FramebufferUpdate),
    NineP(NinePTransportAction),
}

/// The model of what the page has to do.
pub enum HostActionModel {
    Request { id: u32, url: Seq<char> },
    Started,
    Console(Seq<u8>),
    Network(Seq<u8>),
    Framebuffer(FramebufferUpdate),
    NineP(ActionModel),
}

impl View for HostAction {
    type V = HostActionModel;

    open spec fn view(&self) -> HostActionModel {
        match self {
            HostAction::Request(request) => HostActionModel::Request {
                id: request.id,
                url: request.url@,
            },
            HostAction::Started => HostActionModel::Started,
            HostAction::Console(data) => HostActionModel::Console(data@),
            HostAction::Network(data) => HostActionModel::Network(data@),
            HostAction::Framebuffer(update) => HostActionModel::Framebuffer(*update),
            HostAction::NineP(action) => HostActionModel::NineP(action@),
        }
    }
}

pub open spec fn host_actions(actions: Seq<HostAction>) -> Seq<HostActionModel> {
    actions.map_values(|action: HostAction| action@)
}

/// Why a runtime refused something.
#[derive(Clone, Debug, PartialEq, Eq)]
pub enum RuntimeError {
    AlreadyStarted,
    UnexpectedResponse(u32),
    HttpStatus(u16),
    InvalidConfig(String),
    MissingFirmware,
    Machine(String),
}

/// The model of why a runtime refused something.
pub enum ErrorModel {
    AlreadyStarted,
    UnexpectedResponse(u32),
    HttpStatus(u16),
    InvalidConfig(Seq<char>),
    MissingFirmware,
    Machine(Seq<char>),
}

impl View for RuntimeError {
    type V = ErrorModel;

    open spec fn view(&self) -> ErrorModel {
        match self {
            RuntimeError::AlreadyStarted => ErrorModel::AlreadyStarted,
            RuntimeError::UnexpectedResponse(id) => ErrorModel::UnexpectedResponse(*id),
            RuntimeError::HttpStatus(status) => ErrorModel::HttpStatus(*status),
            RuntimeError::InvalidConfig(reason) => ErrorModel::InvalidConfig(reason@),
            RuntimeError::MissingFirmware => ErrorModel::MissingFirmware,
            RuntimeError::Machine(reason) => ErrorModel::Machine(reason@),
        }
    }
}

/// The model of a result.
pub open spec fn outcome<T>(r: Result<T, RuntimeError>) -> Result<T, ErrorModel> {
    match r {
        Ok(value) => Ok(value),
        Err(error) => Err(error@),
    }
}

/// A machine's error as a runtime reports it.
pub open spec fn machine_fault(error: MachineError) -> ErrorModel {
    ErrorModel::Machine(error.text())
}

/// A machine's result as a runtime reports it.
pub open spec fn lifted<T>(r: Result<T, MachineError>) -> Result<T, ErrorModel> {
    match r {
        Ok(value) => Ok(value),
        Err(error) => Err(machine_fault(error)),
    }
}

pub(crate) fn fault(error: MachineError) -> (r: RuntimeError)
    ensures
        r@ == machine_fault(error),
{
    RuntimeError::Machine(error.describe())
}

pub(crate) fn lift(r: Result<(), MachineError>) -> (out: Result<(), RuntimeError>)
    ensures
        outcome(out) == lifted(r),
{
    match r {
        Ok(()) => Ok(()),
        Err(error) => Err(fault(error)),
    }
}

/// A machine that runs, with the slots of its devices and the HTTP requests of
/// its drives.
pub struct Running<E: EntropySource> {
    pub machine: Machine<WebHost<E>>,
    pub console_slot: Option<usize>,
    pub uart_output: bool,
    pub network_slot: Option<usize>,
    pub keyboard_slot: Option<usize>,
    pub pointer_slot: Option<usize>,
    pub pointer_dimensions: Option<(u32, u32)>,
    pub block_slots: Vec<usize>,
    pub ninep_slots: Vec<usize>,
    pub ninep_endpoints: BTreeMap<u32, usize>,
    pub pending_http: BTreeMap<u32, (usize, u32)>,
}

/// The model of a machine that runs.
#[verifier::ext_equal]
pub struct RunningModel<E: EntropySource> {
    pub machine: MachineModel<WebHost<E>>,
    pub console_slot: Option<usize>,
    pub uart_output: bool,
    pub network_slot: Option<usize>,
    pub keyboard_slot: Option<usize>,
    pub pointer_slot: Option<usize>,
    pub pointer_dimensions: Option<(u32, u32)>,
    pub block_slots: Seq<usize>,
    pub ninep_slots: Seq<usize>,
    pub ninep_endpoints: Map<u32, usize>,
    pub pending_http: Map<u32, (usize, u32)>,
}

impl<E: EntropySource> View for Running<E> {
    type V = RunningModel<E>;

    open spec fn view(&self) -> RunningModel<E> {
        RunningModel {
            machine: self.machine@,
            console_slot: self.console_slot,
            uart_output: self.uart_output,
            network_slot: self.network_slot,
            keyboard_slot: self.keyboard_slot,
            pointer_slot: self.pointer_slot,
            pointer_dimensions: self.pointer_dimensions,
            block_slots: self.block_slots@,
            ninep_slots: self.ninep_slots@,
            ninep_endpoints: self.ninep_endpoints@,
            pending_http: self.pending_http@,
        }
    }
}

/// A coordinate as a device gets it.
pub open spec fn device_coordinate(value: u32) -> i32 {
    if value > i32::MAX {
        i32::MAX
    } else {
        value as i32
    }
}

fn coordinate(value: u32) -> (r: i32)
    ensures
        r == device_coordinate(value),
{
    if value > 0x7fff_ffff {
        0x7fff_ffff
    } else {
        value as i32
    }
}

impl<E: EntropySource> RunningModel<E> {
    pub open spec fn valid(self) -> bool {
        self.machine.valid()
    }

    pub open spec fn with_machine(self, machine: MachineModel<WebHost<E>>) -> RunningModel<E> {
        RunningModel { machine, ..self }
    }

    /// The result of an operation of the machine.
    pub open spec fn after(
        self,
        done: (Result<(), MachineError>, MachineModel<WebHost<E>>),
    ) -> (Result<(), ErrorModel>, RunningModel<E>) {
        (lifted(done.0), self.with_machine(done.1))
    }

    /// Gives an event of the page to the device that it is for.
    pub open spec fn delivered(self, event: EventModel) -> (
        Result<(), ErrorModel>,
        RunningModel<E>,
    ) {
        match event {
            EventModel::Key(event) => match self.keyboard_slot {
                Some(slot) => self.after(
                    self.machine.key_input(slot as int, event.code, event.pressed),
                ),
                None => (Ok(()), self),
            },
            EventModel::Pointer(event) => match self.pointer_slot {
                Some(slot) => {
                    let (x, y) = match self.pointer_dimensions {
                        Some((width, height)) => (
                            quantum::scaled_coordinate(event.x, width),
                            quantum::scaled_coordinate(event.y, height),
                        ),
                        None => (event.x, event.y),
                    };
                    self.after(
                        self.machine.pointer_input(
                            slot as int,
                            (device_coordinate(x), device_coordinate(y)),
                            event.wheel,
                            event.buttons,
                        ),
                    )
                },
                None => (Ok(()), self),
            },
            EventModel::NetworkPacket(packet) => match self.network_slot {
                Some(slot) => self.after(self.machine.packet_input(slot as int, packet)),
                None => (Ok(()), self),
            },
            EventModel::NetworkCarrier(up) => match self.network_slot {
                Some(slot) => self.after(self.machine.carrier_set(slot as int, up)),
                None => (Ok(()), self),
            },
        }
    }

    /// Gives all waiting events to their devices, up to the first that fails.
    pub open spec fn delivered_all(self, input: ControllerModel) -> (
        Result<(), ErrorModel>,
        RunningModel<E>,
        ControllerModel,
    )
        decreases input.events.len(),
    {
        if input.events.len() == 0 {
            (Ok(()), self, input)
        } else {
            let rest = ControllerModel { events: input.events.skip(1), ..input };
            let (r, next) = self.delivered(input.events[0]);
            match r {
                Ok(_) => next.delivered_all(rest),
                Err(error) => (Err(error), next, rest),
            }
        }
    }

    /// Tells the console of its size, if that has changed.
    pub open spec fn resized(self, input: ControllerModel) -> (
        Result<(), ErrorModel>,
        RunningModel<E>,
        ControllerModel,
    ) {
        let rest = ControllerModel { resize: None, ..input };
        match (input.resize, self.console_slot) {
            (Some(size), Some(slot)) => {
                let (r, next) = self.after(
                    self.machine.console_resized(slot as int, size.columns, size.rows),
                );
                (r, next, rest)
            },
            _ => (Ok(()), self, rest),
        }
    }

    /// How much console input one run takes.
    pub open spec fn input_limit(self) -> nat {
        if self.console_slot is Some || self.machine.bus.uart.space() > 128 {
            128
        } else {
            self.machine.bus.uart.space()
        }
    }

    /// Gives waiting console input to the console or the serial line.
    pub open spec fn fed(self, input: ControllerModel) -> (
        Result<(), ErrorModel>,
        RunningModel<E>,
        ControllerModel,
    ) {
        let count = input.gives(self.input_limit()) as int;
        let data = input.console.take(count);
        let rest = ControllerModel { console: input.console.skip(count), ..input };
        if count == 0 {
            (Ok(()), self, rest)
        } else {
            match self.console_slot {
                Some(slot) => {
                    let (r, next) = self.after(self.machine.console_input(slot as int, data));
                    (r, next, rest)
                },
                None => (Ok(()), self.with_machine(self.machine.typed(data)), rest),
            }
        }
    }

    /// Everything that the page has put in, up to the first failure.
    pub open spec fn taken_in(self, input: ControllerModel) -> (
        Result<(), ErrorModel>,
        RunningModel<E>,
        ControllerModel,
    ) {
        let (sized, one, left) = self.resized(input);
        match sized {
            Err(_) => (sized, one, left),
            Ok(_) => {
                let (fed, two, rest) = one.fed(left);
                match fed {
                    Err(_) => (fed, two, rest),
                    Ok(_) => two.delivered_all(rest),
                }
            },
        }
    }

    /// The console output of a run as an action.
    pub open spec fn console_collected(self, actions: Seq<HostActionModel>) -> (
        Result<(), ErrorModel>,
        RunningModel<E>,
        Seq<HostActionModel>,
    ) {
        let uart = self.machine.bus.uart.transmitted;
        let quiet = self.machine.serial_taken();
        let first = if self.uart_output {
            uart
        } else {
            Seq::empty()
        };
        match self.console_slot {
            None => (Ok(()), self.with_machine(quiet), with_console(actions, first)),
            Some(slot) => {
                let (r, machine) = quiet.output_taken(slot as int);
                match r {
                    Err(error) => (
                        Err(machine_fault(error)),
                        self.with_machine(machine),
                        actions,
                    ),
                    Ok(second) => (
                        Ok(()),
                        self.with_machine(machine),
                        with_console(actions, first + second),
                    ),
                }
            },
        }
    }

    /// The network output of a run as actions.
    pub open spec fn network_collected(self, actions: Seq<HostActionModel>) -> (
        RunningModel<E>,
        Seq<HostActionModel>,
    ) {
        match self.network_slot {
            None => (self, actions),
            Some(slot) => {
                let (packets, machine) = frames_taken(self.machine, slot as int);
                (
                    self.with_machine(machine),
                    actions + packets.map_values(
                        |packet: Seq<u8>| HostActionModel::Network(packet),
                    ),
                )
            },
        }
    }

    /// The display output of a run as actions, up to the first failure.
    pub open spec fn display_collected(self, actions: Seq<HostActionModel>) -> (
        Result<(), ErrorModel>,
        RunningModel<E>,
        Seq<HostActionModel>,
    ) {
        let (r, machine) = self.machine.spans_taken();
        match r {
            Err(error) => (Err(machine_fault(error)), self.with_machine(machine), actions),
            Ok(spans) => {
                let (reported, all) = reports(machine, spans, 0, actions);
                (reported, self.with_machine(machine), all)
            },
        }
    }

    /// The output of a run as actions.
    pub open spec fn collected(self, actions: Seq<HostActionModel>) -> (
        Result<(), ErrorModel>,
        RunningModel<E>,
        Seq<HostActionModel>,
    ) {
        let (r, one, console) = self.console_collected(actions);
        match r {
            Err(_) => (r, one, console),
            Ok(_) => {
                let (two, network) = one.network_collected(console);
                two.display_collected(network)
            },
        }
    }

    /// One bounded run: input, clocks, the CPU, output.
    #[verifier::opaque]
    pub open spec fn stepped(
        self,
        input: ControllerModel,
        actions: Seq<HostActionModel>,
        ticks: u64,
        nanoseconds: u64,
        limit: u32,
    ) -> (
        Result<CpuRun, ErrorModel>,
        RunningModel<E>,
        ControllerModel,
        Seq<HostActionModel>,
    ) {
        let (entered, ready, rest) = self.taken_in(input);
        match entered {
            Err(error) => (Err(error), ready, rest, actions),
            Ok(_) => {
                let start = ready.machine.at(ticks, nanoseconds);
                let (used, end) = start.ran(limit);
                let run = CpuRun {
                    consumed_cycles: used as u32,
                    state: crate::machine::exit_reason(start, end, used, limit),
                };
                let (r, done, all) = ready.with_machine(end).collected(actions);
                match r {
                    Err(error) => (Err(error), done, rest, all),
                    Ok(_) => (Ok(run), done, rest, all),
                }
            },
        }
    }
}

/// Actions with console output, if there is any.
pub open spec fn with_console(actions: Seq<HostActionModel>, data: Seq<u8>) -> Seq<HostActionModel> {
    if data.len() == 0 {
        actions
    } else {
        actions.push(HostActionModel::Console(data))
    }
}

/// The frames that a network slot has sent, taken out of it.
pub open spec fn frames_taken<E: EntropySource>(m: MachineModel<WebHost<E>>, slot: int) -> (
    Seq<Seq<u8>>,
    MachineModel<WebHost<E>>,
) {
    match m.bus.virtio[slot] {
        SlotModel::Network(mmio) if 0 <= slot < m.bus.virtio.len() => (
            mmio.device.backend,
            m.with_device(
                slot,
                SlotModel::Network(
                    MmioModel {
                        device: NetworkModel { backend: Seq::empty(), ..mmio.device },
                        ..mmio
                    },
                ),
                m.bus.memory,
            ),
        ),
        _ => (Seq::empty(), m),
    }
}

/// The reports of the spans from `i` on as actions, up to the first failure.
pub open spec fn reports<E: EntropySource>(
    m: MachineModel<WebHost<E>>,
    spans: Seq<RedrawSpan>,
    i: nat,
    actions: Seq<HostActionModel>,
) -> (Result<(), ErrorModel>, Seq<HostActionModel>)
    decreases spans.len() - i,
{
    if i >= spans.len() {
        (Ok(()), actions)
    } else {
        match m.update_of(spans[i as int]) {
            Err(error) => (Err(machine_fault(error)), actions),
            Ok(None) => reports(m, spans, i + 1, actions),
            Ok(Some(update)) => reports(
                m,
                spans,
                i + 1,
                actions.push(HostActionModel::Framebuffer(update)),
            ),
        }
    }
}

impl<E: EntropySource> Running<E> {
    fn deliver_event(&mut self, event: BrowserEvent) -> (r: Result<(), RuntimeError>)
        requires
            old(self)@.valid(),
        ensures
            (outcome(r), final(self)@) == old(self)@.delivered(event@),
            final(self)@.valid(),
    {
        match event {
            BrowserEvent::Key(event) => match self.keyboard_slot {
                Some(slot) => lift(self.machine.virtio_key_event(slot, event.code, event.pressed)),
                None => Ok(()),
            },
            BrowserEvent::Pointer(event) => match self.pointer_slot {
                Some(slot) => {
                    let (x, y) = match self.pointer_dimensions {
                        Some((width, height)) => (
                            quantum::scale_pointer_coordinate(event.x, width),
                            quantum::scale_pointer_coordinate(event.y, height),
                        ),
                        None => (event.x, event.y),
                    };
                    lift(
                        self.machine.virtio_pointer_event(
                            slot,
                            (coordinate(x), coordinate(y)),
                            event.wheel,
                            event.buttons,
                        ),
                    )
                },
                None => Ok(()),
            },
            BrowserEvent::NetworkPacket(packet) => match self.network_slot {
                Some(slot) => lift(self.machine.virtio_network_receive(slot, packet)),
                None => Ok(()),
            },
            BrowserEvent::NetworkCarrier(up) => match self.network_slot {
                Some(slot) => lift(self.machine.virtio_network_set_carrier(slot, up)),
                None => Ok(()),
            },
        }
    }

    fn deliver_all(&mut self, input: &mut BrowserController) -> (r: Result<(), RuntimeError>)
        requires
            old(self)@.valid(),
        ensures
            (outcome(r), final(self)@, final(input)@) == old(self)@.delivered_all(old(input)@),
            final(self)@.valid(),
    {
        let ghost whole = self@.delivered_all(input@);
        loop
            invariant
                self@.valid(),
                whole == self@.delivered_all(input@),
                whole == old(self)@.delivered_all(old(input)@),
            decreases input@.events.len(),
        {
            match input.next_event() {
                None => {
                    return Ok(());
                },
                Some(event) => {
                    match self.deliver_event(event) {
                        Ok(()) => {},
                        Err(error) => {
                            return Err(error);
                        },
                    }
                },
            }
        }
    }

    fn resize_console(&mut self, input: &mut BrowserController) -> (r: Result<(), RuntimeError>)
        requires
            old(self)@.valid(),
        ensures
            (outcome(r), final(self)@, final(input)@) == old(self)@.resized(old(input)@),
            final(self)@.valid(),
    {
        let size: Option<TerminalSize> = input.take_resize();
        match (size, self.console_slot) {
            (Some(size), Some(slot)) => lift(
                self.machine.resize_virtio_console(slot, size.columns, size.rows),
            ),
            _ => Ok(()),
        }
    }

    fn feed_console(&mut self, input: &mut BrowserController) -> (r: Result<(), RuntimeError>)
        requires
            old(self)@.valid(),
        ensures
            (outcome(r), final(self)@, final(input)@) == old(self)@.fed(old(input)@),
            final(self)@.valid(),
    {
        let space: usize = self.machine.receive_space();
        let limit: usize = if self.console_slot.is_some() || space > 128 {
            128
        } else {
            space
        };
        let mut buffer: Vec<u8> = bytes::zeros(limit);
        let count: usize = input.read_console(buffer.as_mut_slice());
        if count == 0 {
            return Ok(());
        }
        buffer.truncate(count);
        assert(buffer@ =~= old(input)@.console.take(count as int));
        match self.console_slot {
            Some(slot) => lift(self.machine.virtio_console_receive(slot, buffer.as_slice())),
            None => {
                self.machine.receive_console(buffer.as_slice());
                Ok(())
            },
        }
    }

    fn take_input(&mut self, input: &mut BrowserController) -> (r: Result<(), RuntimeError>)
        requires
            old(self)@.valid(),
        ensures
            (outcome(r), final(self)@, final(input)@) == old(self)@.taken_in(old(input)@),
            final(self)@.valid(),
    {
        match self.resize_console(input) {
            Ok(()) => {},
            Err(error) => {
                return Err(error);
            },
        }
        match self.feed_console(input) {
            Ok(()) => {},
            Err(error) => {
                return Err(error);
            },
        }
        self.deliver_all(input)
    }
}

/// What waits for the page, and the number of its next HTTP request.
pub struct Outbox {
    pub next_request_id: u32,
    pub actions: VecDeque<HostAction>,
}

/// The model of what waits for the page.
#[verifier::ext_equal]
pub struct OutboxModel {
    pub next_request_id: u32,
    pub actions: Seq<HostActionModel>,
}

impl View for Outbox {
    type V = OutboxModel;

    open spec fn view(&self) -> OutboxModel {
        OutboxModel {
            next_request_id: self.next_request_id,
            actions: host_actions(self.actions@),
        }
    }
}

impl OutboxModel {
    pub open spec fn with_action(self, action: HostActionModel) -> OutboxModel {
        OutboxModel { actions: self.actions.push(action), ..self }
    }

    /// The outbox with another HTTP request, which takes the next number.
    pub open spec fn requested(self, url: Seq<char>) -> OutboxModel {
        OutboxModel {
            next_request_id: if self.next_request_id == u32::MAX {
                1
            } else {
                (self.next_request_id + 1) as u32
            },
            ..self.with_action(HostActionModel::Request { id: self.next_request_id, url })
        }
    }
}

impl Outbox {
    pub(crate) fn push(&mut self, action: HostAction)
        ensures
            final(self)@ == old(self)@.with_action(action@),
    {
        self.actions.push_back(action);
        assert(host_actions(self.actions@) =~= old(self)@.actions.push(action@));
    }

    /// Queues an HTTP request and returns its number.
    pub(crate) fn allocate_request(&mut self, url: &str) -> (r: u32)
        ensures
            r == old(self)@.next_request_id,
            final(self)@ == old(self)@.requested(url@),
    {
        let id: u32 = self.next_request_id;
        self.next_request_id = if id == u32::MAX {
            1
        } else {
            id + 1
        };
        self.push(HostAction::Request(HttpRequest { id, url: url.to_owned() }));
        id
    }
}

/// How many HTTP requests of a slot wait.
pub open spec fn requests_waiting<E: EntropySource>(m: MachineModel<WebHost<E>>, slot: int) -> nat {
    match m.bus.virtio[slot] {
        SlotModel::HttpBlock(mmio) => mmio.device.backend.queue.outgoing.len(),
        _ => 0,
    }
}

/// How many transport actions of a slot wait.
pub open spec fn actions_waiting<E: EntropySource>(m: MachineModel<WebHost<E>>, slot: int) -> nat {
    match m.bus.virtio[slot] {
        SlotModel::Endpoint(mmio) => mmio.device.backend.actions.len(),
        _ => 0,
    }
}

impl<E: EntropySource> RunningModel<E> {
    /// Passes the HTTP requests of a slot on to the page.
    pub open spec fn requests_passed(self, slot: usize, out: OutboxModel) -> (
        Result<(), ErrorModel>,
        RunningModel<E>,
        OutboxModel,
    )
        decreases requests_waiting(self.machine, slot as int),
    {
        let (r, machine) = self.machine.block_request(slot as int);
        match r {
            Err(error) => (Err(machine_fault(error)), self.with_machine(machine), out),
            Ok(None) => (Ok(()), self.with_machine(machine), out),
            Ok(Some(request)) => RunningModel {
                machine,
                pending_http: self.pending_http.insert(out.next_request_id, (slot, request.id)),
                ..self
            }.requests_passed(slot, out.requested(request.url)),
        }
    }

    /// Passes the HTTP requests of the drives from `i` on to the page.
    pub open spec fn drives_pumped(self, i: nat, out: OutboxModel) -> (
        Result<(), ErrorModel>,
        RunningModel<E>,
        OutboxModel,
    )
        decreases self.block_slots.len() - i,
    {
        if i >= self.block_slots.len() {
            (Ok(()), self, out)
        } else {
            proof {
                lemma_requests_passed_keeps_slots(self, self.block_slots[i as int], out);
            }
            let (r, next, all) = self.requests_passed(self.block_slots[i as int], out);
            match r {
                Err(_) => (r, next, all),
                Ok(_) => next.drives_pumped(i + 1, all),
            }
        }
    }


    /// Passes the transport actions of a slot on to the page.
    pub open spec fn actions_passed(self, slot: usize, out: OutboxModel) -> (
        Result<(), ErrorModel>,
        RunningModel<E>,
        OutboxModel,
    )
        decreases actions_waiting(self.machine, slot as int),
    {
        let (r, machine) = self.machine.ninep_action(slot as int);
        match r {
            Err(error) => (Err(machine_fault(error)), self.with_machine(machine), out),
            Ok(None) => (Ok(()), self.with_machine(machine), out),
            Ok(Some(action)) => self.with_machine(machine).actions_passed(
                slot,
                out.with_action(HostActionModel::NineP(action)),
            ),
        }
    }

    /// Passes the transport actions of the 9p slots from `i` on to the page.
    pub open spec fn channels_pumped(self, i: nat, out: OutboxModel) -> (
        Result<(), ErrorModel>,
        RunningModel<E>,
        OutboxModel,
    )
        decreases self.ninep_slots.len() - i,
    {
        if i >= self.ninep_slots.len() {
            (Ok(()), self, out)
        } else {
            proof {
                lemma_actions_passed_keeps_slots(self, self.ninep_slots[i as int], out);
            }
            let (r, next, all) = self.actions_passed(self.ninep_slots[i as int], out);
            match r {
                Err(_) => (r, next, all),
                Ok(_) => next.channels_pumped(i + 1, all),
            }
        }
    }

}

/// Passing requests on changes the machine and what is pending only.
pub proof fn lemma_requests_passed_keeps_slots<E: EntropySource>(
    running: RunningModel<E>,
    slot: usize,
    out: OutboxModel,
)
    ensures
        ({
            let after = running.requests_passed(slot, out).1;
            after == (RunningModel {
                machine: after.machine,
                pending_http: after.pending_http,
                ..running
            })
        }),
    decreases requests_waiting(running.machine, slot as int),
{
    let (r, machine) = running.machine.block_request(slot as int);
    if let Ok(Some(request)) = r {
        lemma_requests_passed_keeps_slots(
            RunningModel {
                machine,
                pending_http: running.pending_http.insert(
                    out.next_request_id,
                    (slot, request.id),
                ),
                ..running
            },
            slot,
            out.requested(request.url),
        );
    }
}

/// Passing actions on changes the machine only.
pub proof fn lemma_actions_passed_keeps_slots<E: EntropySource>(
    running: RunningModel<E>,
    slot: usize,
    out: OutboxModel,
)
    ensures
        ({
            let after = running.actions_passed(slot, out).1;
            after == running.with_machine(after.machine)
        }),
    decreases actions_waiting(running.machine, slot as int),
{
    let (r, machine) = running.machine.ninep_action(slot as int);
    if let Ok(Some(action)) = r {
        lemma_actions_passed_keeps_slots(
            running.with_machine(machine),
            slot,
            out.with_action(HostActionModel::NineP(action)),
        );
    }
}

impl<E: EntropySource> Running<E> {
    fn collect_console(&mut self, out: &mut Outbox) -> (r: Result<(), RuntimeError>)
        requires
            old(self)@.valid(),
        ensures
            ({
                let (result, next, actions) = old(self)@.console_collected(old(out)@.actions);
                &&& outcome(r) == result
                &&& final(self)@ == next
                &&& final(out)@ == (OutboxModel { actions, ..old(out)@ })
            }),
            final(self)@.valid(),
    {
        let uart: Vec<u8> = self.machine.take_console_output();
        let mut console: Vec<u8> = Vec::new();
        if self.uart_output {
            console = uart;
        }
        assert(!self.uart_output ==> console@ =~= Seq::empty());
        match self.console_slot {
            Some(slot) => match self.machine.take_virtio_console_output(slot) {
                Ok(mut output) => {
                    console.append(&mut output);
                },
                Err(error) => {
                    return Err(fault(error));
                },
            },
            None => {},
        }
        if console.len() > 0 {
            out.push(HostAction::Console(console));
        }
        Ok(())
    }

    fn take_frames(&mut self, slot: usize) -> (r: VecDeque<Vec<u8>>)
        requires
            old(self)@.valid(),
        ensures
            (packet_models(r@), final(self)@.machine) == frames_taken(
                old(self)@.machine,
                slot as int,
            ),
            final(self)@ == old(self)@.with_machine(final(self)@.machine),
            final(self)@.valid(),
    {
        let mut frames: VecDeque<Vec<u8>> = VecDeque::new();
        assert(packet_models(frames@) =~= Seq::empty());
        if slot >= self.machine.bus.virtio.len() {
            return frames;
        }
        assert(self@.machine.bus.virtio[slot as int].valid());
        match &mut self.machine.bus.virtio[slot] {
            VirtioSlot::Network(mmio) => {
                std::mem::swap(&mut frames, &mut mmio.device.backend.packets);
            },
            _ => {
                assert(self@.machine.bus.virtio =~= old(self)@.machine.bus.virtio);
                return frames;
            },
        }
        assert(self@.machine.bus.virtio =~= old(self)@.machine.bus.virtio.update(
            slot as int,
            self.machine.bus.virtio@[slot as int]@,
        ));
        frames
    }

    fn collect_network(&mut self, out: &mut Outbox)
        requires
            old(self)@.valid(),
        ensures
            ({
                let (next, actions) = old(self)@.network_collected(old(out)@.actions);
                &&& final(self)@ == next
                &&& final(out)@ == (OutboxModel { actions, ..old(out)@ })
            }),
            final(self)@.valid(),
    {
        let slot: usize = match self.network_slot {
            Some(slot) => slot,
            None => {
                return;
            },
        };
        let mut frames: VecDeque<Vec<u8>> = self.take_frames(slot);
        let ghost all = packet_models(frames@);
        let ghost start = out@;
        let ghost mapped = all.map_values(|packet: Seq<u8>| HostActionModel::Network(packet));
        assert(packet_models(frames@) =~= all.skip(0));
        assert(out@.actions =~= start.actions + mapped.take(0));
        let ghost mut i: int = 0;
        loop
            invariant
                0 <= i <= all.len(),
                packet_models(frames@) == all.skip(i),
                mapped == all.map_values(|packet: Seq<u8>| HostActionModel::Network(packet)),
                out@ == (OutboxModel { actions: start.actions + mapped.take(i), ..start }),
            ensures
                i == all.len(),
            decreases all.len() - i,
        {
            let ghost held = frames@;
            let ghost before = packet_models(held);
            assert(before.len() == held.len() && before.len() == all.len() - i);
            match frames.pop_front() {
                None => {
                    assert(before.len() == 0);
                    break;
                },
                Some(frame) => {
                    assert(held.len() > 0 && frame@ == before[0]);
                    out.push(HostAction::Network(frame));
                    assert(packet_models(frames@) =~= before.skip(1));
                    assert(before.skip(1) =~= all.skip(i + 1));
                    assert(mapped.take(i + 1) =~= mapped.take(i).push(mapped[i]));
                    assert(out@.actions =~= start.actions + mapped.take(i + 1));
                    proof {
                        i = i + 1;
                    }
                },
            }
        }
        assert(mapped.take(i) =~= mapped);
    }

    fn collect_display(&mut self, out: &mut Outbox) -> (r: Result<(), RuntimeError>)
        requires
            old(self)@.valid(),
        ensures
            ({
                let (result, next, actions) = old(self)@.display_collected(old(out)@.actions);
                &&& outcome(r) == result
                &&& final(self)@ == next
                &&& final(out)@ == (OutboxModel { actions, ..old(out)@ })
            }),
            final(self)@.valid(),
    {
        let spans: Vec<RedrawSpan> = match self.machine.take_redraw_spans() {
            Ok(spans) => spans,
            Err(error) => {
                return Err(fault(error));
            },
        };
        let ghost whole = reports(self@.machine, spans@, 0, out@.actions);
        let ghost machine = self@.machine;
        let mut i: usize = 0;
        while i < spans.len()
            invariant
                i <= spans@.len(),
                self@.valid(),
                self@ == old(self)@.with_machine(machine),
                old(self)@.display_collected(old(out)@.actions) == (whole.0, self@, whole.1),
                out@ == (OutboxModel { actions: out@.actions, ..old(out)@ }),
                whole == reports(machine, spans@, i as nat, out@.actions),
            decreases spans@.len() - i,
        {
            match self.machine.framebuffer_update(spans[i]) {
                Ok(Some(update)) => {
                    out.push(HostAction::Framebuffer(update));
                },
                Ok(None) => {},
                Err(error) => {
                    return Err(fault(error));
                },
            }
            i = i + 1;
        }
        Ok(())
    }

    fn collect(&mut self, out: &mut Outbox) -> (r: Result<(), RuntimeError>)
        requires
            old(self)@.valid(),
        ensures
            ({
                let (result, next, actions) = old(self)@.collected(old(out)@.actions);
                &&& outcome(r) == result
                &&& final(self)@ == next
                &&& final(out)@ == (OutboxModel { actions, ..old(out)@ })
            }),
            final(self)@.valid(),
    {
        match self.collect_console(out) {
            Ok(()) => {},
            Err(error) => {
                return Err(error);
            },
        }
        self.collect_network(out);
        self.collect_display(out)
    }

    /// Takes input, runs the CPU within a limit and collects output.
    pub(crate) fn step(
        &mut self,
        input: &mut BrowserController,
        out: &mut Outbox,
        ticks: u64,
        nanoseconds: u64,
        limit: u32,
    ) -> (r: Result<CpuRun, RuntimeError>)
        requires
            old(self)@.valid(),
        ensures
            ({
                let (result, next, rest, actions) = old(self)@.stepped(
                    old(input)@,
                    old(out)@.actions,
                    ticks,
                    nanoseconds,
                    limit,
                );
                &&& outcome(r) == result
                &&& final(self)@ == next
                &&& final(input)@ == rest
                &&& final(out)@ == (OutboxModel { actions, ..old(out)@ })
            }),
            final(self)@.valid(),
            r matches Ok(run) ==> run.consumed_cycles <= limit,
    {
        reveal(RunningModel::stepped);
        match self.take_input(input) {
            Ok(()) => {},
            Err(error) => {
                return Err(error);
            },
        }
        self.machine.present_guest_clocks(ticks, nanoseconds);
        let run: CpuRun = self.machine.run_cpu(limit);
        match self.collect(out) {
            Ok(()) => Ok(run),
            Err(error) => Err(error),
        }
    }

    fn pass_requests(&mut self, slot: usize, out: &mut Outbox) -> (r: Result<(), RuntimeError>)
        requires
            old(self)@.valid(),
        ensures
            (outcome(r), final(self)@, final(out)@) == old(self)@.requests_passed(slot, old(out)@),
            final(self)@.valid(),
    {
        let ghost whole = self@.requests_passed(slot, out@);
        loop
            invariant
                self@.valid(),
                whole == self@.requests_passed(slot, out@),
                whole == old(self)@.requests_passed(slot, old(out)@),
            decreases requests_waiting(self@.machine, slot as int),
        {
            match self.machine.next_http_block_request(slot) {
                Err(error) => {
                    return Err(fault(error));
                },
                Ok(None) => {
                    return Ok(());
                },
                Ok(Some(request)) => {
                    let id: u32 = out.allocate_request(request.url.as_str());
                    self.pending_http.insert(id, (slot, request.id));
                },
            }
        }
    }

    /// Passes the HTTP requests of all drives on to the page.
    pub(crate) fn pump_drives(&mut self, out: &mut Outbox) -> (r: Result<(), RuntimeError>)
        requires
            old(self)@.valid(),
        ensures
            (outcome(r), final(self)@, final(out)@) == old(self)@.drives_pumped(0, old(out)@),
            final(self)@.valid(),
    {
        let ghost whole = self@.drives_pumped(0, out@);
        let mut i: usize = 0;
        while i < self.block_slots.len()
            invariant
                self@.valid(),
                whole == self@.drives_pumped(i as nat, out@),
                whole == old(self)@.drives_pumped(0, old(out)@),
            decreases self@.block_slots.len() - i,
        {
            let slot: usize = self.block_slots[i];
            proof {
                lemma_requests_passed_keeps_slots(self@, slot, out@);
            }
            match self.pass_requests(slot, out) {
                Ok(()) => {},
                Err(error) => {
                    return Err(error);
                },
            }
            i = i + 1;
        }
        Ok(())
    }

    fn pass_actions(&mut self, slot: usize, out: &mut Outbox) -> (r: Result<(), RuntimeError>)
        requires
            old(self)@.valid(),
        ensures
            (outcome(r), final(self)@, final(out)@) == old(self)@.actions_passed(slot, old(out)@),
            final(self)@.valid(),
    {
        let ghost whole = self@.actions_passed(slot, out@);
        loop
            invariant
                self@.valid(),
                whole == self@.actions_passed(slot, out@),
                whole == old(self)@.actions_passed(slot, old(out)@),
            decreases actions_waiting(self@.machine, slot as int),
        {
            match self.machine.next_ninep_transport_action(slot) {
                Err(error) => {
                    return Err(fault(error));
                },
                Ok(None) => {
                    return Ok(());
                },
                Ok(Some(action)) => {
                    out.push(HostAction::NineP(action));
                },
            }
        }
    }

    /// Passes the transport actions of all 9p devices on to the page.
    pub(crate) fn pump_channels(&mut self, out: &mut Outbox) -> (r: Result<(), RuntimeError>)
        requires
            old(self)@.valid(),
        ensures
            (outcome(r), final(self)@, final(out)@) == old(self)@.channels_pumped(0, old(out)@),
            final(self)@.valid(),
    {
        let ghost whole = self@.channels_pumped(0, out@);
        let mut i: usize = 0;
        while i < self.ninep_slots.len()
            invariant
                self@.valid(),
                whole == self@.channels_pumped(i as nat, out@),
                whole == old(self)@.channels_pumped(0, old(out)@),
            decreases self@.ninep_slots.len() - i,
        {
            let slot: usize = self.ninep_slots[i];
            proof {
                lemma_actions_passed_keeps_slots(self@, slot, out@);
            }
            match self.pass_actions(slot, out) {
                Ok(()) => {},
                Err(error) => {
                    return Err(error);
                },
            }
            i = i + 1;
        }
        Ok(())
    }
}

} // verus!
