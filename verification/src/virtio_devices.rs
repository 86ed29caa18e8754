//! Synchronous VirtIO device protocols used by the browser platform.

use vstd::prelude::*;
use crate::bytes;
use crate::entropy::{Draws, EntropySource};
use crate::guest_memory::MemoryAccess;
use crate::memory::{AccessWidth, MemoryModel};
use crate::virtio::{
    ChainModel, DescriptorChain, QueueError, QueueIndex, TransportModel, VirtioTransport,
};

verus! {

pub const CONFIG_BASE: u32 = 0x100;
pub const NET_HEADER_LEN: usize = 10;
pub const ENTROPY_CHUNK_SIZE: u32 = 65_536;

/// The number of chains after which one pass over a queue ends.
pub const SERVICE_LIMIT: u64 = 0xffff_ffff_ffff_ffff;

pub const STATUS_DRIVER_OK: u32 = 4;

#[derive(Clone, Copy, Debug, PartialEq, Eq, Structural)]
pub enum DeviceError {
    Queue(QueueError),
    InvalidRequest,
    Backend,
}

impl From<QueueError> for DeviceError {
    fn from(error: QueueError) -> (r: Self) {
        DeviceError::Queue(error)
    }
}

impl vstd::std_specs::convert::FromSpecImpl<QueueError> for DeviceError {
    open spec fn obeys_from_spec() -> bool {
        true
    }

    open spec fn from_spec(error: QueueError) -> Self {
        DeviceError::Queue(error)
    }
}

/// What a device works on while it serves a queue.
#[verifier::ext_equal]
pub struct QueueState<D> {
    pub device: D,
    pub transport: TransportModel,
    pub memory: MemoryModel,
}

/// A queue's result as a device reports it.
pub open spec fn lifted(r: Result<(), QueueError>) -> Result<(), DeviceError> {
    match r {
        Ok(_) => Ok(()),
        Err(error) => Err(DeviceError::Queue(error)),
    }
}

/// `len` zero bytes.
pub open spec fn zeros(len: nat) -> Seq<u8> {
    Seq::new(len, |i: int| 0u8)
}

impl<D> QueueState<D> {
    pub open spec fn valid(self) -> bool {
        self.transport.valid() && self.memory.valid()
    }

    /// Returns a chain to the driver, with `written` bytes written to it.
    pub open spec fn completed(self, queue: u16, chain: ChainModel, written: u32) -> (
        Result<(), DeviceError>,
        QueueState<D>,
    ) {
        let (r, transport, memory) = self.transport.completes(self.memory, queue, chain, written);
        (lifted(r), QueueState { transport, memory, ..self })
    }

    /// Writes bytes to the writable part of a chain.
    pub open spec fn written(self, chain: ChainModel, offset: u32, data: Seq<u8>) -> (
        Result<(), DeviceError>,
        QueueState<D>,
    ) {
        let (r, memory) = chain.writes(self.memory, offset, data);
        (lifted(r), QueueState { memory, ..self })
    }

    /// `len` bytes of the readable part of a chain.
    pub open spec fn read(self, chain: ChainModel, offset: u32, len: nat) -> Result<
        Seq<u8>,
        DeviceError,
    > {
        let (r, data) = chain.reads(self.memory, offset, zeros(len));
        match r {
            Ok(_) => Ok(data),
            Err(error) => Err(DeviceError::Queue(error)),
        }
    }

    /// Writes bytes to the start of a chain and returns it to the driver.
    pub open spec fn answered(self, queue: u16, chain: ChainModel, data: Seq<u8>) -> (
        Result<(), DeviceError>,
        QueueState<D>,
    ) {
        match self.written(chain, 0, data) {
            (Err(error), s) => (Err(error), s),
            (Ok(_), s) => s.completed(queue, chain, data.len() as u32),
        }
    }
}

pub(crate) fn complete<M: MemoryAccess>(
    transport: &mut VirtioTransport,
    memory: &mut M,
    queue: QueueIndex,
    chain: &DescriptorChain,
    written: u32,
) -> (r: Result<(), DeviceError>)
    requires
        old(transport)@.valid(),
        old(memory).model().valid(),
    ensures
        ({
            let (result, t, m) = old(transport)@.completes(
                old(memory).model(),
                queue.0,
                chain@,
                written,
            );
            &&& r == lifted(result)
            &&& final(transport)@ == t
            &&& final(memory).model() == m
        }),
        final(transport)@.valid(),
        final(memory).model().follows(old(memory).model()),
{
    match transport.complete_chain(memory, queue, chain, written) {
        Ok(()) => Ok(()),
        Err(error) => Err(DeviceError::Queue(error)),
    }
}

pub(crate) fn put<M: MemoryAccess>(
    transport: &VirtioTransport,
    memory: &mut M,
    chain: &DescriptorChain,
    offset: u32,
    data: &[u8],
) -> (r: Result<(), DeviceError>)
    requires
        old(memory).model().valid(),
    ensures
        r == lifted(chain@.writes(old(memory).model(), offset, data@).0),
        final(memory).model() == chain@.writes(old(memory).model(), offset, data@).1,
        final(memory).model().follows(old(memory).model()),
{
    match transport.write_chain(memory, chain, offset, data) {
        Ok(()) => Ok(()),
        Err(error) => Err(DeviceError::Queue(error)),
    }
}

pub(crate) fn get<M: MemoryAccess>(
    transport: &VirtioTransport,
    memory: &mut M,
    chain: &DescriptorChain,
    offset: u32,
    len: usize,
) -> (r: Result<Vec<u8>, DeviceError>)
    requires
        old(memory).model().valid(),
    ensures
        ({
            let (result, data) = chain@.reads(old(memory).model(), offset, zeros(len as nat));
            match r {
                Ok(read) => result is Ok && read@ == data && read@.len() == len,
                Err(error) => Err::<(), _>(error) == lifted(result),
            }
        }),
        final(memory).model() == old(memory).model(),
{
    let mut data: Vec<u8> = bytes::zeros(len);
    assert(data@ =~= zeros(len as nat));
    proof {
        crate::virtio::lemma_gather_len(memory.model(), chain@.segments, 0, offset, data@, 0);
    }
    match transport.read_chain(memory, chain, offset, data.as_mut_slice()) {
        Ok(()) => Ok(data),
        Err(error) => Err(DeviceError::Queue(error)),
    }
}

/// A device that serves descriptor chains one at a time.
pub trait ChainServer {
    type Model;

    spec fn state(&self) -> Self::Model;

    /// The invariant of the state.
    spec fn sound(m: Self::Model) -> bool;

    /// Whether the device has a use for a chain of a queue.
    spec fn wants(m: Self::Model, queue: u16) -> bool;

    /// Serves a chain, and says whether to go on with the next one.
    spec fn serves(s: QueueState<Self::Model>, queue: u16, chain: ChainModel) -> (
        Result<bool, DeviceError>,
        QueueState<Self::Model>,
    );

    fn wanted(&self, queue: QueueIndex) -> (r: bool)
        ensures
            r == Self::wants(self.state(), queue.0),
    ;

    /// Serves one chain.
    ///
    /// # Errors
    ///
    /// Returns an error for malformed requests or host failures.
    fn serve<M: MemoryAccess>(
        &mut self,
        transport: &mut VirtioTransport,
        memory: &mut M,
        queue: QueueIndex,
        chain: DescriptorChain,
    ) -> (r: Result<bool, DeviceError>)
        requires
            Self::sound(old(self).state()),
            old(transport)@.valid(),
            old(memory).model().valid(),
        ensures
            (
                r,
                QueueState {
                    device: final(self).state(),
                    transport: final(transport)@,
                    memory: final(memory).model(),
                },
            ) == Self::serves(
                QueueState {
                    device: old(self).state(),
                    transport: old(transport)@,
                    memory: old(memory).model(),
                },
                queue.0,
                chain@,
            ),
            Self::sound(final(self).state()),
            final(transport)@.valid(),
            final(memory).model().follows(old(memory).model()),
    ;
}

/// Serves the chains of a queue until none is left, none is wanted or the
/// device stops; an error ends the pass.
pub open spec fn drained<S: ChainServer>(s: QueueState<S::Model>, queue: u16, limit: nat) -> (
    Result<(), DeviceError>,
    QueueState<S::Model>,
)
    decreases limit,
{
    if limit == 0 || !S::wants(s.device, queue) {
        (Ok(()), s)
    } else {
        let (taken, transport, memory) = s.transport.takes(s.memory, queue);
        let next = QueueState { transport, memory, ..s };
        match taken {
            Err(error) => (Err(DeviceError::Queue(error)), next),
            Ok(None) => (Ok(()), next),
            Ok(Some(chain)) => {
                let (r, after) = S::serves(next, queue, chain);
                match r {
                    Err(error) => (Err(error), after),
                    Ok(false) => (Ok(()), after),
                    Ok(true) => drained::<S>(after, queue, (limit - 1) as nat),
                }
            },
        }
    }
}

/// A pass over a queue.
pub open spec fn served<S: ChainServer>(s: QueueState<S::Model>, queue: u16) -> (
    Result<(), DeviceError>,
    QueueState<S::Model>,
) {
    drained::<S>(s, queue, SERVICE_LIMIT as nat)
}

pub(crate) fn drain<S: ChainServer, M: MemoryAccess>(
    server: &mut S,
    transport: &mut VirtioTransport,
    memory: &mut M,
    queue: QueueIndex,
) -> (r: Result<(), DeviceError>)
    requires
        S::sound(old(server).state()),
        old(transport)@.valid(),
        old(memory).model().valid(),
    ensures
        (
            r,
            QueueState {
                device: final(server).state(),
                transport: final(transport)@,
                memory: final(memory).model(),
            },
        ) == served::<S>(
            QueueState {
                device: old(server).state(),
                transport: old(transport)@,
                memory: old(memory).model(),
            },
            queue.0,
        ),
        S::sound(final(server).state()),
        final(transport)@.valid(),
        final(memory).model().follows(old(memory).model()),
{
    let mut left: u64 = SERVICE_LIMIT;
    let ghost whole = served::<S>(
        QueueState {
            device: server.state(),
            transport: transport@,
            memory: memory.model(),
        },
        queue.0,
    );
    while left > 0
        invariant
            S::sound(server.state()),
            transport@.valid(),
            memory.model().follows(old(memory).model()),
            whole == served::<S>(
                QueueState {
                    device: old(server).state(),
                    transport: old(transport)@,
                    memory: old(memory).model(),
                },
                queue.0,
            ),
            whole == drained::<S>(
                QueueState {
                    device: server.state(),
                    transport: transport@,
                    memory: memory.model(),
                },
                queue.0,
                left as nat,
            ),
        decreases left,
    {
        if !server.wanted(queue) {
            return Ok(());
        }
        let chain: DescriptorChain = match transport.next_chain(memory, queue) {
            Ok(Some(chain)) => chain,
            Ok(None) => {
                return Ok(());
            },
            Err(error) => {
                return Err(DeviceError::Queue(error));
            },
        };
        match server.serve(transport, memory, queue, chain) {
            Ok(true) => {},
            Ok(false) => {
                return Ok(());
            },
            Err(error) => {
                return Err(error);
            },
        }
        left = left - 1;
    }
    Ok(())
}

/// The device side of a VirtIO transport.
pub trait VirtioDevice {
    type Model;

    spec fn model(&self) -> Self::Model;

    /// The invariant of the model.
    spec fn valid(m: Self::Model) -> bool;

    spec fn configuration(m: Self::Model, offset: u32, width: AccessWidth) -> u32;

    spec fn configured(m: Self::Model, offset: u32, value: u32, width: AccessWidth) -> Self::Model;

    spec fn cleared(m: Self::Model) -> Self::Model;

    spec fn notified(s: QueueState<Self::Model>, queue: u16) -> (
        Result<(), DeviceError>,
        QueueState<Self::Model>,
    );

    fn read_config(&self, offset: u32, width: AccessWidth) -> (r: u32)
        requires
            Self::valid(self.model()),
        ensures
            r == Self::configuration(self.model(), offset, width),
    ;

    fn write_config(&mut self, offset: u32, value: u32, width: AccessWidth)
        requires
            Self::valid(old(self).model()),
        ensures
            final(self).model() == Self::configured(old(self).model(), offset, value, width),
            Self::valid(final(self).model()),
    ;

    fn reset(&mut self)
        requires
            Self::valid(old(self).model()),
        ensures
            final(self).model() == Self::cleared(old(self).model()),
            Self::valid(final(self).model()),
    ;

    /// Services all available chains in the notified queue.
    ///
    /// # Errors
    ///
    /// Returns an error for malformed queues, requests, or host failures.
    fn notify<M: MemoryAccess>(
        &mut self,
        transport: &mut VirtioTransport,
        memory: &mut M,
        queue: QueueIndex,
    ) -> (r: Result<(), DeviceError>)
        requires
            Self::valid(old(self).model()),
            old(transport)@.valid(),
            old(memory).model().valid(),
        ensures
            (
                r,
                QueueState {
                    device: final(self).model(),
                    transport: final(transport)@,
                    memory: final(memory).model(),
                },
            ) == Self::notified(
                QueueState {
                    device: old(self).model(),
                    transport: old(transport)@,
                    memory: old(memory).model(),
                },
                queue.0,
            ),
            Self::valid(final(self).model()),
            final(transport)@.valid(),
            final(memory).model().follows(old(memory).model()),
    ;
}

/// A device behind its transport registers.
pub struct VirtioMmioDevice<D> {
    pub transport: VirtioTransport,
    pub device: D,
}

/// The model of a device behind its registers.
#[verifier::ext_equal]
pub struct MmioModel<D> {
    pub transport: TransportModel,
    pub device: D,
}

impl<D: VirtioDevice> View for VirtioMmioDevice<D> {
    type V = MmioModel<D::Model>;

    open spec fn view(&self) -> MmioModel<D::Model> {
        MmioModel { transport: self.transport@, device: self.device.model() }
    }
}

/// The value of a register.
pub open spec fn mmio_register<D: VirtioDevice>(
    m: MmioModel<D::Model>,
    offset: u32,
    width: AccessWidth,
) -> u32 {
    if offset >= CONFIG_BASE {
        D::configuration(m.device, (offset - CONFIG_BASE) as u32, width)
    } else {
        m.transport.register(offset, width)
    }
}

/// The effect of a register write. A notification is served at once, if the
/// driver and the queue are ready; a reset reaches the device as well.
pub open spec fn mmio_written<D: VirtioDevice>(
    m: MmioModel<D::Model>,
    memory: MemoryModel,
    offset: u32,
    value: u32,
    width: AccessWidth,
) -> (Result<(), DeviceError>, MmioModel<D::Model>, MemoryModel) {
    if offset >= CONFIG_BASE {
        (
            Ok(()),
            MmioModel {
                device: D::configured(m.device, (offset - CONFIG_BASE) as u32, value, width),
                ..m
            },
            memory,
        )
    } else if offset == 0x050 && width is Word {
        if value > 0xffff || m.transport.status & STATUS_DRIVER_OK == 0 {
            (Err(DeviceError::InvalidRequest), m, memory)
        } else if value >= 8 || !m.transport.queues[value as int].ready {
            (Err(DeviceError::Queue(QueueError::NotReady)), m, memory)
        } else {
            let (r, s) = D::notified(
                QueueState { device: m.device, transport: m.transport, memory },
                value as u16,
            );
            (r, MmioModel { transport: s.transport, device: s.device }, s.memory)
        }
    } else {
        (
            Ok(()),
            MmioModel {
                transport: m.transport.written(offset, value, width),
                device: if offset == 0x070 && width is Word && value == 0 {
                    D::cleared(m.device)
                } else {
                    m.device
                },
            },
            memory,
        )
    }
}

impl<D: VirtioDevice> VirtioMmioDevice<D> {
    pub open spec fn valid(&self) -> bool {
        self.transport@.valid() && D::valid(self.device.model())
    }

    pub fn new(transport: VirtioTransport, device: D) -> (r: Self)
        ensures
            r.transport == transport,
            r.device == device,
    {
        VirtioMmioDevice { transport, device }
    }

    #[must_use]
    pub fn read(&self, offset: u32, width: AccessWidth) -> (r: u32)
        requires
            self.valid(),
        ensures
            r == mmio_register::<D>(self@, offset, width),
    {
        if offset >= CONFIG_BASE {
            self.device.read_config(offset - CONFIG_BASE, width)
        } else {
            self.transport.read_mmio(offset, width)
        }
    }

    /// Writes a transport or device register and services queue notifications.
    ///
    /// # Errors
    ///
    /// Returns an error when a queue notification cannot be serviced.
    pub fn write<M: MemoryAccess>(
        &mut self,
        memory: &mut M,
        offset: u32,
        value: u32,
        width: AccessWidth,
    ) -> (r: Result<(), DeviceError>)
        requires
            old(self).valid(),
            old(memory).model().valid(),
        ensures
            (r, final(self)@, final(memory).model()) == mmio_written::<D>(
                old(self)@,
                old(memory).model(),
                offset,
                value,
                width,
            ),
            final(self).valid(),
            final(memory).model().follows(old(memory).model()),
    {
        if offset >= CONFIG_BASE {
            self.device.write_config(offset - CONFIG_BASE, value, width);
            Ok(())
        } else if offset == 0x050 && width == AccessWidth::Word {
            if value > 0xffff || self.transport.status() & STATUS_DRIVER_OK == 0 {
                return Err(DeviceError::InvalidRequest);
            }
            let queue: QueueIndex = QueueIndex(value as u16);
            let ready: bool = match self.transport.queue(queue) {
                Some(state) => state.ready,
                None => false,
            };
            if !ready {
                return Err(DeviceError::Queue(QueueError::NotReady));
            }
            self.device.notify(&mut self.transport, memory, queue)
        } else {
            if offset == 0x070 && width == AccessWidth::Word && value == 0 {
                self.device.reset();
            }
            self.transport.write_mmio(offset, value, width);
            Ok(())
        }
    }
}

/// A value from a device's configuration space.
pub open spec fn config_value(data: Seq<u8>, offset: u32, width: AccessWidth) -> u32 {
    if width.size() > 4 || offset + width.size() > data.len() {
        0
    } else {
        bytes::le_value(data.subrange(offset as int, (offset + width.size()) as int)) as u32
    }
}

pub(crate) fn config_bytes(data: &[u8], offset: u32, width: AccessWidth) -> (r: u32)
    ensures
        r == config_value(data@, offset, width),
{
    let start: usize = offset as usize;
    let count: usize = width.bytes();
    if count > 4 || data.len() < count || start > data.len() - count {
        return 0;
    }
    bytes::load_le(data, start, count) as u32
}

fn config_u64(value: u64, offset: u32, width: AccessWidth) -> (r: u32)
    ensures
        r == config_value(bytes::le_bytes(value as nat, 8), offset, width),
{
    let data: Vec<u8> = bytes::to_le(value, 8);
    config_bytes(data.as_slice(), offset, width)
}

/// A 9p message says its own length and carries a tag.
pub open spec fn sound_9p(message: Seq<u8>) -> bool {
    message.len() >= 7 && bytes::le_value(message.take(4)) == message.len()
}

pub(crate) fn validate_9p(message: &[u8]) -> (r: bool)
    ensures
        r == sound_9p(message@),
{
    if message.len() < 7 {
        return false;
    }
    assert(message@.take(4) =~= message@.subrange(0, 4));
    bytes::load_le(message, 0, 4) == message.len() as u64
}

/// A device that hands out entropy.
pub struct EntropyDevice<E> {
    source: E,
}

impl<E: EntropySource> EntropyDevice<E> {
    pub closed spec fn supply(&self) -> Draws {
        self.source.draws()
    }

    #[must_use]
    pub fn new(source: E) -> (r: Self)
        ensures
            r.supply() == source.draws(),
    {
        EntropyDevice { source }
    }
}

/// Fills the writable part of a chain from `offset` on, chunk by chunk.
pub open spec fn entropy_filled(
    s: QueueState<Draws>,
    chain: ChainModel,
    offset: u32,
) -> (Result<(), DeviceError>, QueueState<Draws>)
    decreases chain.writable - offset,
{
    if offset >= chain.writable {
        (Ok(()), s)
    } else {
        let rest = (chain.writable - offset) as u32;
        let length = if rest < ENTROPY_CHUNK_SIZE {
            rest
        } else {
            ENTROPY_CHUNK_SIZE
        };
        let next = QueueState { device: s.device.rest(), ..s };
        match s.device.drawn(length as nat) {
            Err(_) => (Err(DeviceError::Backend), next),
            Ok(data) => match next.written(chain, offset, data) {
                (Err(error), after) => (Err(error), after),
                (Ok(_), after) => entropy_filled(after, chain, (offset + length) as u32),
            },
        }
    }
}

impl<E: EntropySource> ChainServer for EntropyDevice<E> {
    type Model = Draws;

    open spec fn state(&self) -> Draws {
        self.supply()
    }

    open spec fn sound(m: Draws) -> bool {
        true
    }

    open spec fn wants(m: Draws, queue: u16) -> bool {
        true
    }

    open spec fn serves(s: QueueState<Draws>, queue: u16, chain: ChainModel) -> (
        Result<bool, DeviceError>,
        QueueState<Draws>,
    ) {
        if chain.readable != 0 {
            (Err(DeviceError::InvalidRequest), s)
        } else {
            match entropy_filled(s, chain, 0) {
                (Err(error), after) => (Err(error), after),
                (Ok(_), after) => match after.completed(queue, chain, chain.writable) {
                    (Err(error), last) => (Err(error), last),
                    (Ok(_), last) => (Ok(true), last),
                },
            }
        }
    }

    fn wanted(&self, queue: QueueIndex) -> (r: bool) {
        true
    }

    fn serve<M: MemoryAccess>(
        &mut self,
        transport: &mut VirtioTransport,
        memory: &mut M,
        queue: QueueIndex,
        chain: DescriptorChain,
    ) -> (r: Result<bool, DeviceError>) {
        if chain.readable != 0 {
            return Err(DeviceError::InvalidRequest);
        }
        let mut offset: u32 = 0;
        let ghost whole = entropy_filled(
            QueueState { device: self.supply(), transport: transport@, memory: memory.model() },
            chain@,
            0,
        );
        while offset < chain.writable
            invariant
                offset <= chain.writable,
                chain.readable == 0,
                transport@ == old(transport)@,
                transport@.valid(),
                memory.model().follows(old(memory).model()),
                whole == entropy_filled(
                    QueueState {
                        device: old(self).supply(),
                        transport: old(transport)@,
                        memory: old(memory).model(),
                    },
                    chain@,
                    0,
                ),
                whole == entropy_filled(
                    QueueState {
                        device: self.supply(),
                        transport: transport@,
                        memory: memory.model(),
                    },
                    chain@,
                    offset,
                ),
            decreases chain.writable - offset,
        {
            let rest: u32 = chain.writable - offset;
            let length: u32 = if rest < ENTROPY_CHUNK_SIZE {
                rest
            } else {
                ENTROPY_CHUNK_SIZE
            };
            let mut data: Vec<u8> = bytes::zeros(length as usize);
            match self.source.fill(data.as_mut_slice()) {
                Ok(()) => {},
                Err(_) => {
                    return Err(DeviceError::Backend);
                },
            }
            match put(transport, memory, &chain, offset, data.as_slice()) {
                Ok(()) => {},
                Err(error) => {
                    return Err(error);
                },
            }
            offset = offset + length;
        }
        match complete(transport, memory, queue, &chain, chain.writable) {
            Ok(()) => Ok(true),
            Err(error) => Err(error),
        }
    }
}

impl<E: EntropySource> VirtioDevice for EntropyDevice<E> {
    type Model = Draws;

    open spec fn model(&self) -> Draws {
        self.supply()
    }

    open spec fn valid(m: Draws) -> bool {
        true
    }

    open spec fn configuration(m: Draws, offset: u32, width: AccessWidth) -> u32 {
        0
    }

    open spec fn configured(m: Draws, offset: u32, value: u32, width: AccessWidth) -> Draws {
        m
    }

    open spec fn cleared(m: Draws) -> Draws {
        m
    }

    open spec fn notified(s: QueueState<Draws>, queue: u16) -> (
        Result<(), DeviceError>,
        QueueState<Draws>,
    ) {
        if queue != 0 {
            (Err(DeviceError::InvalidRequest), s)
        } else {
            served::<EntropyDevice<E>>(s, queue)
        }
    }

    fn read_config(&self, offset: u32, width: AccessWidth) -> (r: u32) {
        0
    }

    fn write_config(&mut self, offset: u32, value: u32, width: AccessWidth) {
    }

    fn reset(&mut self) {
    }

    fn notify<M: MemoryAccess>(
        &mut self,
        transport: &mut VirtioTransport,
        memory: &mut M,
        queue: QueueIndex,
    ) -> (r: Result<(), DeviceError>) {
        if queue.0 != 0 {
            return Err(DeviceError::InvalidRequest);
        }
        drain(self, transport, memory, queue)
    }
}

#[derive(Clone, Copy, Debug, PartialEq, Eq, Structural)]
pub enum BlockRequestStatus {
    Complete,
    Pending,
}

/// Host storage for a block device.
pub trait BlockBackend {
    type Model;

    spec fn model(&self) -> Self::Model;

    /// The invariant of the model.
    spec fn valid(m: Self::Model) -> bool;

    spec fn capacity(m: Self::Model) -> u64;

    /// The result of a read into a buffer, the buffer and the state after it.
    spec fn reads(m: Self::Model, sector: u64, data: Seq<u8>) -> (
        Result<(), DeviceError>,
        Seq<u8>,
        Self::Model,
    );

    spec fn writes(m: Self::Model, sector: u64, data: Seq<u8>) -> (
        Result<(), DeviceError>,
        Self::Model,
    );

    /// Like a read, but one that may be left to a host service.
    spec fn read_requests(m: Self::Model, sector: u64, data: Seq<u8>) -> (
        Result<BlockRequestStatus, DeviceError>,
        Seq<u8>,
        Self::Model,
    );

    spec fn write_requests(m: Self::Model, sector: u64, data: Seq<u8>) -> (
        Result<BlockRequestStatus, DeviceError>,
        Self::Model,
    );

    fn capacity_sectors(&self) -> (r: u64)
        requires
            Self::valid(self.model()),
        ensures
            r == Self::capacity(self.model()),
    ;

    /// Reads whole sectors into `data`.
    ///
    /// # Errors
    ///
    /// Returns `DeviceError::Backend` when host storage cannot be read.
    fn read(&mut self, sector: u64, data: &mut [u8]) -> (r: Result<(), DeviceError>)
        requires
            Self::valid(old(self).model()),
        ensures
            (r, final(data)@, final(self).model()) == Self::reads(
                old(self).model(),
                sector,
                old(data)@,
            ),
            final(data)@.len() == old(data)@.len(),
            Self::valid(final(self).model()),
    ;

    /// Writes whole sectors from `data`.
    ///
    /// # Errors
    ///
    /// Returns `DeviceError::Backend` when host storage cannot be written.
    fn write(&mut self, sector: u64, data: &[u8]) -> (r: Result<(), DeviceError>)
        requires
            Self::valid(old(self).model()),
        ensures
            (r, final(self).model()) == Self::writes(old(self).model(), sector, data@),
            Self::valid(final(self).model()),
    ;

    /// Starts a read which may remain pending on a host service.
    ///
    /// # Errors
    ///
    /// Returns `DeviceError::Backend` when host storage cannot be read.
    fn read_request(&mut self, sector: u64, data: &mut [u8]) -> (r: Result<
        BlockRequestStatus,
        DeviceError,
    >)
        requires
            Self::valid(old(self).model()),
        ensures
            (r, final(data)@, final(self).model()) == Self::read_requests(
                old(self).model(),
                sector,
                old(data)@,
            ),
            final(data)@.len() == old(data)@.len(),
            Self::valid(final(self).model()),
    ;

    /// Starts a write which may remain pending on a host service.
    ///
    /// # Errors
    ///
    /// Returns `DeviceError::Backend` when host storage cannot be written.
    fn write_request(&mut self, sector: u64, data: &[u8]) -> (r: Result<
        BlockRequestStatus,
        DeviceError,
    >)
        requires
            Self::valid(old(self).model()),
        ensures
            (r, final(self).model()) == Self::write_requests(old(self).model(), sector, data@),
            Self::valid(final(self).model()),
    ;
}

/// A block device on host storage.
pub struct BlockDevice<B> {
    pub backend: B,
    pub id: [u8; 20],
    pub pending: Option<(QueueIndex, DescriptorChain)>,
}

/// The model of a block device. A request that waits for the host is kept
/// with its queue.
#[verifier::ext_equal]
pub struct BlockModel<B> {
    pub backend: B,
    pub id: Seq<u8>,
    pub pending: Option<(u16, ChainModel)>,
}

impl<B: BlockBackend> View for BlockDevice<B> {
    type V = BlockModel<B::Model>;

    open spec fn view(&self) -> BlockModel<B::Model> {
        BlockModel {
            backend: self.backend.model(),
            id: self.id@,
            pending: match self.pending {
                Some((queue, chain)) => Some((queue.0, chain@)),
                None => None,
            },
        }
    }
}

/// Whether a request covers whole sectors of the disk.
pub open spec fn block_range_ok(capacity: u64, sector: u64, len: nat) -> bool {
    len > 0 && len % 512 == 0 && sector + len / 512 <= capacity
}

/// Ends a block request with its status byte.
pub open spec fn block_ended<D>(
    s: QueueState<D>,
    queue: u16,
    chain: ChainModel,
    status: u8,
    written: u32,
) -> (Result<BlockRequestStatus, DeviceError>, QueueState<D>) {
    match s.written(chain, (chain.writable - 1) as u32, seq![status]) {
        (Err(error), after) => (Err(error), after),
        (Ok(_), after) => match after.completed(queue, chain, written) {
            (Err(error), last) => (Err(error), last),
            (Ok(_), last) => (Ok(BlockRequestStatus::Complete), last),
        },
    }
}

pub open spec fn block_read<B: BlockBackend>(
    s: QueueState<BlockModel<B::Model>>,
    queue: u16,
    chain: ChainModel,
    sector: u64,
) -> (Result<BlockRequestStatus, DeviceError>, QueueState<BlockModel<B::Model>>) {
    let len = (chain.writable - 1) as nat;
    if !block_range_ok(B::capacity(s.device.backend), sector, len) {
        (Err(DeviceError::InvalidRequest), s)
    } else {
        let (r, data, backend) = B::read_requests(s.device.backend, sector, zeros(len));
        let next = QueueState { device: BlockModel { backend, ..s.device }, ..s };
        match r {
            Ok(BlockRequestStatus::Pending) => (Ok(BlockRequestStatus::Pending), next),
            _ => match next.written(chain, 0, data) {
                (Err(error), after) => (Err(error), after),
                (Ok(_), after) => block_ended(
                    after,
                    queue,
                    chain,
                    if r is Ok {
                        0
                    } else {
                        1
                    },
                    chain.writable,
                ),
            },
        }
    }
}

pub open spec fn block_write<B: BlockBackend>(
    s: QueueState<BlockModel<B::Model>>,
    queue: u16,
    chain: ChainModel,
    sector: u64,
) -> (Result<BlockRequestStatus, DeviceError>, QueueState<BlockModel<B::Model>>) {
    let len = (chain.readable - 16) as nat;
    if !block_range_ok(B::capacity(s.device.backend), sector, len) {
        (Err(DeviceError::InvalidRequest), s)
    } else {
        match s.read(chain, 16, len) {
            Err(error) => (Err(error), s),
            Ok(data) => {
                let (r, backend) = B::write_requests(s.device.backend, sector, data);
                let next = QueueState { device: BlockModel { backend, ..s.device }, ..s };
                match r {
                    Ok(BlockRequestStatus::Pending) => (Ok(BlockRequestStatus::Pending), next),
                    _ => block_ended(
                        next,
                        queue,
                        chain,
                        if r is Ok {
                            0
                        } else {
                            1
                        },
                        1,
                    ),
                }
            },
        }
    }
}

/// Carries out the request in a chain: a header of 16 bytes with the kind and
/// the sector, the data, and a status byte.
pub open spec fn block_requested<B: BlockBackend>(
    s: QueueState<BlockModel<B::Model>>,
    queue: u16,
    chain: ChainModel,
) -> (Result<BlockRequestStatus, DeviceError>, QueueState<BlockModel<B::Model>>) {
    if chain.readable < 16 || chain.writable < 1 {
        (Err(DeviceError::InvalidRequest), s)
    } else {
        match s.read(chain, 0, 16) {
            Err(error) => (Err(error), s),
            Ok(header) => {
                let kind = bytes::le_value(header.subrange(0, 4));
                let sector = bytes::le_value(header.subrange(8, 16)) as u64;
                if kind == 0 {
                    block_read::<B>(s, queue, chain, sector)
                } else if kind == 1 {
                    block_write::<B>(s, queue, chain, sector)
                } else if kind == 8 && chain.writable == 21 {
                    match s.written(chain, 0, s.device.id) {
                        (Err(error), after) => (Err(error), after),
                        (Ok(_), after) => block_ended(after, queue, chain, 0, 21),
                    }
                } else {
                    block_ended(s, queue, chain, 2, 1)
                }
            },
        }
    }
}

/// Resumes the request that waits for the host, and then the queue.
pub open spec fn block_resumed<B: BlockBackend>(s: QueueState<BlockModel<B::Model>>) -> (
    Result<(), DeviceError>,
    QueueState<BlockModel<B::Model>>,
) {
    match s.device.pending {
        None => (Ok(()), s),
        Some((queue, chain)) => {
            let free = QueueState { device: BlockModel { pending: None, ..s.device }, ..s };
            match block_requested::<B>(free, queue, chain) {
                (Err(error), after) => (Err(error), after),
                (Ok(BlockRequestStatus::Pending), after) => (
                    Ok(()),
                    QueueState {
                        device: BlockModel { pending: s.device.pending, ..after.device },
                        ..after
                    },
                ),
                (Ok(BlockRequestStatus::Complete), after) => served::<BlockDevice<B>>(
                    after,
                    queue,
                ),
            }
        },
    }
}

impl<B: BlockBackend> BlockDevice<B> {
    pub fn new(backend: B, id: [u8; 20]) -> (r: Self)
        ensures
            r@ == (BlockModel { backend: backend.model(), id: id@, pending: None }),
    {
        BlockDevice { backend, id, pending: None }
    }

    pub fn backend(&self) -> (r: &B)
        ensures
            *r == self.backend,
    {
        &self.backend
    }

    pub fn backend_mut(&mut self) -> (r: &mut B)
        ensures
            *r == old(self).backend,
            *final(self) == (BlockDevice { backend: *final(r), ..*old(self) }),
    {
        &mut self.backend
    }

    /// Retries an outstanding request after its host operation has completed.
    ///
    /// # Errors
    ///
    /// Returns an error for a malformed request or queue.
    pub fn resume<M: MemoryAccess>(
        &mut self,
        transport: &mut VirtioTransport,
        memory: &mut M,
    ) -> (r: Result<(), DeviceError>)
        requires
            B::valid(old(self)@.backend),
            old(transport)@.valid(),
            old(memory).model().valid(),
        ensures
            (
                r,
                QueueState {
                    device: final(self)@,
                    transport: final(transport)@,
                    memory: final(memory).model(),
                },
            ) == block_resumed::<B>(
                QueueState {
                    device: old(self)@,
                    transport: old(transport)@,
                    memory: old(memory).model(),
                },
            ),
            B::valid(final(self)@.backend),
            final(transport)@.valid(),
            final(memory).model().follows(old(memory).model()),
    {
        let mut waiting: Option<(QueueIndex, DescriptorChain)> = None;
        std::mem::swap(&mut waiting, &mut self.pending);
        match waiting {
            None => Ok(()),
            Some((queue, chain)) => {
                match self.request(transport, memory, queue, &chain) {
                    Ok(BlockRequestStatus::Pending) => {
                        self.pending = Some((queue, chain));
                        Ok(())
                    },
                    Ok(BlockRequestStatus::Complete) => drain(self, transport, memory, queue),
                    Err(error) => Err(error),
                }
            },
        }
    }

    fn end_request<M: MemoryAccess>(
        transport: &mut VirtioTransport,
        memory: &mut M,
        queue: QueueIndex,
        chain: &DescriptorChain,
        status: u8,
        written: u32,
    ) -> (r: Result<BlockRequestStatus, DeviceError>)
        requires
            chain@.writable >= 1,
            old(transport)@.valid(),
            old(memory).model().valid(),
        ensures
            forall|device: BlockModel<B::Model>|
                (
                    r,
                    QueueState {
                        device,
                        transport: final(transport)@,
                        memory: final(memory).model(),
                    },
                ) == #[trigger] block_ended(
                    QueueState {
                        device,
                        transport: old(transport)@,
                        memory: old(memory).model(),
                    },
                    queue.0,
                    chain@,
                    status,
                    written,
                ),
            final(transport)@.valid(),
            final(memory).model().follows(old(memory).model()),
    {
        let data: Vec<u8> = vec![status];
        assert(data@ =~= seq![status]);
        match put(transport, memory, chain, chain.writable - 1, data.as_slice()) {
            Ok(()) => {},
            Err(error) => {
                return Err(error);
            },
        }
        match complete(transport, memory, queue, chain, written) {
            Ok(()) => Ok(BlockRequestStatus::Complete),
            Err(error) => Err(error),
        }
    }

    fn request_read<M: MemoryAccess>(
        &mut self,
        transport: &mut VirtioTransport,
        memory: &mut M,
        queue: QueueIndex,
        chain: &DescriptorChain,
        sector: u64,
    ) -> (r: Result<BlockRequestStatus, DeviceError>)
        requires
            chain@.writable >= 1,
            B::valid(old(self)@.backend),
            old(transport)@.valid(),
            old(memory).model().valid(),
        ensures
            (
                r,
                QueueState {
                    device: final(self)@,
                    transport: final(transport)@,
                    memory: final(memory).model(),
                },
            ) == block_read::<B>(
                QueueState {
                    device: old(self)@,
                    transport: old(transport)@,
                    memory: old(memory).model(),
                },
                queue.0,
                chain@,
                sector,
            ),
            B::valid(final(self)@.backend),
            final(transport)@.valid(),
            final(memory).model().follows(old(memory).model()),
    {
        let len: usize = (chain.writable - 1) as usize;
        if !self.validate_range(sector, len) {
            return Err(DeviceError::InvalidRequest);
        }
        let mut data: Vec<u8> = bytes::zeros(len);
        assert(data@ =~= zeros(len as nat));
        let status: u8 = match self.backend.read_request(sector, data.as_mut_slice()) {
            Ok(BlockRequestStatus::Pending) => {
                return Ok(BlockRequestStatus::Pending);
            },
            Ok(BlockRequestStatus::Complete) => 0,
            Err(_) => 1,
        };
        match put(transport, memory, chain, 0, data.as_slice()) {
            Ok(()) => {},
            Err(error) => {
                return Err(error);
            },
        }
        Self::end_request(transport, memory, queue, chain, status, chain.writable)
    }

    fn request_write<M: MemoryAccess>(
        &mut self,
        transport: &mut VirtioTransport,
        memory: &mut M,
        queue: QueueIndex,
        chain: &DescriptorChain,
        sector: u64,
    ) -> (r: Result<BlockRequestStatus, DeviceError>)
        requires
            chain@.writable >= 1,
            chain@.readable >= 16,
            B::valid(old(self)@.backend),
            old(transport)@.valid(),
            old(memory).model().valid(),
        ensures
            (
                r,
                QueueState {
                    device: final(self)@,
                    transport: final(transport)@,
                    memory: final(memory).model(),
                },
            ) == block_write::<B>(
                QueueState {
                    device: old(self)@,
                    transport: old(transport)@,
                    memory: old(memory).model(),
                },
                queue.0,
                chain@,
                sector,
            ),
            B::valid(final(self)@.backend),
            final(transport)@.valid(),
            final(memory).model().follows(old(memory).model()),
    {
        let len: usize = (chain.readable - 16) as usize;
        if !self.validate_range(sector, len) {
            return Err(DeviceError::InvalidRequest);
        }
        let data: Vec<u8> = match get(transport, memory, chain, 16, len) {
            Ok(data) => data,
            Err(error) => {
                return Err(error);
            },
        };
        let status: u8 = match self.backend.write_request(sector, data.as_slice()) {
            Ok(BlockRequestStatus::Pending) => {
                return Ok(BlockRequestStatus::Pending);
            },
            Ok(BlockRequestStatus::Complete) => 0,
            Err(_) => 1,
        };
        Self::end_request(transport, memory, queue, chain, status, 1)
    }

    fn request<M: MemoryAccess>(
        &mut self,
        transport: &mut VirtioTransport,
        memory: &mut M,
        queue: QueueIndex,
        chain: &DescriptorChain,
    ) -> (r: Result<BlockRequestStatus, DeviceError>)
        requires
            B::valid(old(self)@.backend),
            old(transport)@.valid(),
            old(memory).model().valid(),
        ensures
            (
                r,
                QueueState {
                    device: final(self)@,
                    transport: final(transport)@,
                    memory: final(memory).model(),
                },
            ) == block_requested::<B>(
                QueueState {
                    device: old(self)@,
                    transport: old(transport)@,
                    memory: old(memory).model(),
                },
                queue.0,
                chain@,
            ),
            B::valid(final(self)@.backend),
            final(transport)@.valid(),
            final(memory).model().follows(old(memory).model()),
    {
        if chain.readable < 16 || chain.writable < 1 {
            return Err(DeviceError::InvalidRequest);
        }
        let header: Vec<u8> = match get(transport, memory, chain, 0, 16) {
            Ok(header) => header,
            Err(error) => {
                return Err(error);
            },
        };
        let kind: u64 = bytes::load_le(header.as_slice(), 0, 4);
        let sector: u64 = bytes::load_le(header.as_slice(), 8, 8);
        if kind == 0 {
            self.request_read(transport, memory, queue, chain, sector)
        } else if kind == 1 {
            self.request_write(transport, memory, queue, chain, sector)
        } else if kind == 8 && chain.writable == 21 {
            match put(transport, memory, chain, 0, self.id.as_slice()) {
                Ok(()) => Self::end_request(transport, memory, queue, chain, 0, 21),
                Err(error) => Err(error),
            }
        } else {
            Self::end_request(transport, memory, queue, chain, 2, 1)
        }
    }

    fn validate_range(&self, sector: u64, len: usize) -> (r: bool)
        requires
            B::valid(self@.backend),
        ensures
            r == block_range_ok(B::capacity(self@.backend), sector, len as nat),
    {
        if len == 0 || len % 512 != 0 {
            return false;
        }
        match sector.checked_add((len / 512) as u64) {
            Some(end) => end <= self.backend.capacity_sectors(),
            None => false,
        }
    }
}

impl<B: BlockBackend> ChainServer for BlockDevice<B> {
    type Model = BlockModel<B::Model>;

    open spec fn state(&self) -> BlockModel<B::Model> {
        self@
    }

    open spec fn sound(m: BlockModel<B::Model>) -> bool {
        B::valid(m.backend)
    }

    open spec fn wants(m: BlockModel<B::Model>, queue: u16) -> bool {
        true
    }

    open spec fn serves(s: QueueState<BlockModel<B::Model>>, queue: u16, chain: ChainModel) -> (
        Result<bool, DeviceError>,
        QueueState<BlockModel<B::Model>>,
    ) {
        match block_requested::<B>(s, queue, chain) {
            (Err(error), after) => (Err(error), after),
            (Ok(BlockRequestStatus::Complete), after) => (Ok(true), after),
            (Ok(BlockRequestStatus::Pending), after) => (
                Ok(false),
                QueueState {
                    device: BlockModel { pending: Some((queue, chain)), ..after.device },
                    ..after
                },
            ),
        }
    }

    fn wanted(&self, queue: QueueIndex) -> (r: bool) {
        true
    }

    fn serve<M: MemoryAccess>(
        &mut self,
        transport: &mut VirtioTransport,
        memory: &mut M,
        queue: QueueIndex,
        chain: DescriptorChain,
    ) -> (r: Result<bool, DeviceError>) {
        match self.request(transport, memory, queue, &chain) {
            Ok(BlockRequestStatus::Complete) => Ok(true),
            Ok(BlockRequestStatus::Pending) => {
                self.pending = Some((queue, chain));
                Ok(false)
            },
            Err(error) => Err(error),
        }
    }
}

impl<B: BlockBackend> VirtioDevice for BlockDevice<B> {
    type Model = BlockModel<B::Model>;

    open spec fn model(&self) -> BlockModel<B::Model> {
        self@
    }

    open spec fn valid(m: BlockModel<B::Model>) -> bool {
        B::valid(m.backend)
    }

    open spec fn configuration(m: BlockModel<B::Model>, offset: u32, width: AccessWidth) -> u32 {
        config_value(bytes::le_bytes(B::capacity(m.backend) as nat, 8), offset, width)
    }

    open spec fn configured(
        m: BlockModel<B::Model>,
        offset: u32,
        value: u32,
        width: AccessWidth,
    ) -> BlockModel<B::Model> {
        m
    }

    open spec fn cleared(m: BlockModel<B::Model>) -> BlockModel<B::Model> {
        BlockModel { pending: None, ..m }
    }

    open spec fn notified(s: QueueState<BlockModel<B::Model>>, queue: u16) -> (
        Result<(), DeviceError>,
        QueueState<BlockModel<B::Model>>,
    ) {
        if s.device.pending is Some {
            (Ok(()), s)
        } else {
            served::<BlockDevice<B>>(s, queue)
        }
    }

    fn read_config(&self, offset: u32, width: AccessWidth) -> (r: u32) {
        config_u64(self.backend.capacity_sectors(), offset, width)
    }

    fn write_config(&mut self, offset: u32, value: u32, width: AccessWidth) {
    }

    fn reset(&mut self) {
        self.pending = None;
    }

    fn notify<M: MemoryAccess>(
        &mut self,
        transport: &mut VirtioTransport,
        memory: &mut M,
        queue: QueueIndex,
    ) -> (r: Result<(), DeviceError>) {
        if self.pending.is_some() {
            return Ok(());
        }
        drain(self, transport, memory, queue)
    }
}

/// A console: input bytes that wait for the guest, and what it has sent.
pub struct ConsoleDevice {
    pub output: Vec<u8>,
    pub input: Vec<u8>,
    pub width: u16,
    pub height: u16,
}

/// The model of a console.
#[verifier::ext_equal]
pub struct ConsoleModel {
    pub output: Seq<u8>,
    pub input: Seq<u8>,
    pub width: u16,
    pub height: u16,
}

impl View for ConsoleDevice {
    type V = ConsoleModel;

    open spec fn view(&self) -> ConsoleModel {
        ConsoleModel {
            output: self.output@,
            input: self.input@,
            width: self.width,
            height: self.height,
        }
    }
}

/// Delivers waiting input to a chain of the receive queue.
pub open spec fn console_delivered(s: QueueState<ConsoleModel>, chain: ChainModel) -> (
    Result<bool, DeviceError>,
    QueueState<ConsoleModel>,
) {
    let input = s.device.input;
    let count = if input.len() < chain.writable {
        input.len()
    } else {
        chain.writable as nat
    };
    match s.written(chain, 0, input.take(count as int)) {
        (Err(error), after) => (Err(error), after),
        (Ok(_), after) => {
            let rest = QueueState {
                device: ConsoleModel { input: input.skip(count as int), ..after.device },
                ..after
            };
            match rest.completed(0, chain, count as u32) {
                (Err(error), last) => (Err(error), last),
                (Ok(_), last) => (Ok(true), last),
            }
        },
    }
}

/// Takes what a chain of the transmit queue carries.
pub open spec fn console_collected(s: QueueState<ConsoleModel>, chain: ChainModel) -> (
    Result<bool, DeviceError>,
    QueueState<ConsoleModel>,
) {
    match s.read(chain, 0, chain.readable as nat) {
        Err(error) => (Err(error), s),
        Ok(data) => {
            let next = QueueState {
                device: ConsoleModel { output: s.device.output + data, ..s.device },
                ..s
            };
            match next.completed(1, chain, 0) {
                (Err(error), last) => (Err(error), last),
                (Ok(_), last) => (Ok(true), last),
            }
        },
    }
}

impl Default for ConsoleDevice {
    fn default() -> (r: Self)
        ensures
            r@ == (ConsoleModel {
                output: Seq::empty(),
                input: Seq::empty(),
                width: 0,
                height: 0,
            }),
    {
        ConsoleDevice::new(0, 0)
    }
}

impl ConsoleDevice {
    #[must_use]
    pub fn new(width: u16, height: u16) -> (r: Self)
        ensures
            r@ == (ConsoleModel { output: Seq::empty(), input: Seq::empty(), width, height }),
    {
        ConsoleDevice { output: Vec::new(), input: Vec::new(), width, height }
    }

    pub fn push_input(&mut self, data: &[u8])
        ensures
            final(self)@ == (ConsoleModel { input: old(self)@.input + data@, ..old(self)@ }),
    {
        self.input.extend_from_slice(data);
    }

    /// Delivers bytes to an already posted receive chain.
    ///
    /// # Errors
    ///
    /// Returns an error for an unavailable or malformed receive queue.
    pub fn receive<M: MemoryAccess>(
        &mut self,
        transport: &mut VirtioTransport,
        memory: &mut M,
        data: &[u8],
    ) -> (r: Result<(), DeviceError>)
        requires
            old(transport)@.valid(),
            old(memory).model().valid(),
        ensures
            (
                r,
                QueueState {
                    device: final(self)@,
                    transport: final(transport)@,
                    memory: final(memory).model(),
                },
            ) == console_received(
                QueueState {
                    device: old(self)@,
                    transport: old(transport)@,
                    memory: old(memory).model(),
                },
                data@,
            ),
            final(transport)@.valid(),
            final(memory).model().follows(old(memory).model()),
    {
        if transport.status() & STATUS_DRIVER_OK == 0 {
            return Err(DeviceError::InvalidRequest);
        }
        self.push_input(data);
        drain(self, transport, memory, QueueIndex(0))
    }

    pub fn resize(&mut self, transport: &mut VirtioTransport, width: u16, height: u16)
        ensures
            final(self)@ == (ConsoleModel { width, height, ..old(self)@ }),
            final(transport)@ == old(transport)@.config_changed(),
            old(transport)@.valid() ==> final(transport)@.valid(),
    {
        self.width = width;
        self.height = height;
        transport.raise_config_interrupt();
    }
}

/// Queues host input and delivers as much as the guest has room for.
pub open spec fn console_received(s: QueueState<ConsoleModel>, data: Seq<u8>) -> (
    Result<(), DeviceError>,
    QueueState<ConsoleModel>,
) {
    if s.transport.status & STATUS_DRIVER_OK == 0 {
        (Err(DeviceError::InvalidRequest), s)
    } else {
        served::<ConsoleDevice>(
            QueueState {
                device: ConsoleModel { input: s.device.input + data, ..s.device },
                ..s
            },
            0,
        )
    }
}

impl ChainServer for ConsoleDevice {
    type Model = ConsoleModel;

    open spec fn state(&self) -> ConsoleModel {
        self@
    }

    open spec fn sound(m: ConsoleModel) -> bool {
        true
    }

    open spec fn wants(m: ConsoleModel, queue: u16) -> bool {
        queue != 0 || m.input.len() > 0
    }

    open spec fn serves(s: QueueState<ConsoleModel>, queue: u16, chain: ChainModel) -> (
        Result<bool, DeviceError>,
        QueueState<ConsoleModel>,
    ) {
        if queue == 0 {
            console_delivered(s, chain)
        } else if queue == 1 {
            console_collected(s, chain)
        } else {
            (Err(DeviceError::InvalidRequest), s)
        }
    }

    fn wanted(&self, queue: QueueIndex) -> (r: bool) {
        queue.0 != 0 || self.input.len() > 0
    }

    fn serve<M: MemoryAccess>(
        &mut self,
        transport: &mut VirtioTransport,
        memory: &mut M,
        queue: QueueIndex,
        chain: DescriptorChain,
    ) -> (r: Result<bool, DeviceError>) {
        if queue.0 == 0 {
            let count: usize = if self.input.len() < chain.writable as usize {
                self.input.len()
            } else {
                chain.writable as usize
            };
            let data: Vec<u8> = bytes::copy_range(self.input.as_slice(), 0, count);
            assert(data@ =~= self.input@.take(count as int));
            match put(transport, memory, &chain, 0, data.as_slice()) {
                Ok(()) => {},
                Err(error) => {
                    return Err(error);
                },
            }
            let rest: Vec<u8> = bytes::copy_range(
                self.input.as_slice(),
                count,
                self.input.len() - count,
            );
            assert(rest@ =~= self.input@.skip(count as int));
            self.input = rest;
            match complete(transport, memory, queue, &chain, count as u32) {
                Ok(()) => Ok(true),
                Err(error) => Err(error),
            }
        } else if queue.0 == 1 {
            let mut data: Vec<u8> = match get(
                transport,
                memory,
                &chain,
                0,
                chain.readable as usize,
            ) {
                Ok(data) => data,
                Err(error) => {
                    return Err(error);
                },
            };
            self.output.append(&mut data);
            match complete(transport, memory, queue, &chain, 0) {
                Ok(()) => Ok(true),
                Err(error) => Err(error),
            }
        } else {
            Err(DeviceError::InvalidRequest)
        }
    }
}

impl VirtioDevice for ConsoleDevice {
    type Model = ConsoleModel;

    open spec fn model(&self) -> ConsoleModel {
        self@
    }

    open spec fn valid(m: ConsoleModel) -> bool {
        true
    }

    open spec fn configuration(m: ConsoleModel, offset: u32, width: AccessWidth) -> u32 {
        config_value(
            bytes::le_bytes(m.width as nat, 2) + bytes::le_bytes(m.height as nat, 2),
            offset,
            width,
        )
    }

    open spec fn configured(
        m: ConsoleModel,
        offset: u32,
        value: u32,
        width: AccessWidth,
    ) -> ConsoleModel {
        m
    }

    open spec fn cleared(m: ConsoleModel) -> ConsoleModel {
        m
    }

    open spec fn notified(s: QueueState<ConsoleModel>, queue: u16) -> (
        Result<(), DeviceError>,
        QueueState<ConsoleModel>,
    ) {
        served::<ConsoleDevice>(s, queue)
    }

    fn read_config(&self, offset: u32, width: AccessWidth) -> (r: u32) {
        let mut data: Vec<u8> = bytes::to_le(self.width as u64, 2);
        let mut more: Vec<u8> = bytes::to_le(self.height as u64, 2);
        data.append(&mut more);
        config_bytes(data.as_slice(), offset, width)
    }

    fn write_config(&mut self, offset: u32, value: u32, width: AccessWidth) {
    }

    fn reset(&mut self) {
    }

    fn notify<M: MemoryAccess>(
        &mut self,
        transport: &mut VirtioTransport,
        memory: &mut M,
        queue: QueueIndex,
    ) -> (r: Result<(), DeviceError>) {
        drain(self, transport, memory, queue)
    }
}

/// A host network.
pub trait NetworkBackend {
    type Model;

    spec fn model(&self) -> Self::Model;

    /// The result of sending a frame, and the state after it.
    spec fn transmits(m: Self::Model, packet: Seq<u8>) -> (Result<(), DeviceError>, Self::Model);

    /// Sends one Ethernet frame.
    ///
    /// # Errors
    ///
    /// Returns `DeviceError::Backend` when the host rejects the frame.
    fn transmit(&mut self, packet: &[u8]) -> (r: Result<(), DeviceError>)
        ensures
            (r, final(self).model()) == Self::transmits(old(self).model(), packet@),
    ;
}

/// A network device; frames from the host wait for receive chains.
pub struct NetworkDevice<B> {
    pub backend: B,
    pub mac: [u8; 6],
    pub receive: Vec<Vec<u8>>,
    pub carrier: bool,
}

/// The model of a network device.
#[verifier::ext_equal]
pub struct NetworkModel<B> {
    pub backend: B,
    pub mac: Seq<u8>,
    pub receive: Seq<Seq<u8>>,
    pub carrier: bool,
}

/// The contents of a list of buffers.
pub open spec fn contents(buffers: Seq<Vec<u8>>) -> Seq<Seq<u8>> {
    buffers.map_values(|buffer: Vec<u8>| buffer@)
}

impl<B: NetworkBackend> View for NetworkDevice<B> {
    type V = NetworkModel<B::Model>;

    open spec fn view(&self) -> NetworkModel<B::Model> {
        NetworkModel {
            backend: self.backend.model(),
            mac: self.mac@,
            receive: contents(self.receive@),
            carrier: self.carrier,
        }
    }
}

/// Delivers the oldest waiting frame, behind an empty header, to a chain of the
/// receive queue. A frame that does not fit is lost.
pub open spec fn network_delivered<D>(s: QueueState<NetworkModel<D>>, chain: ChainModel) -> (
    Result<bool, DeviceError>,
    QueueState<NetworkModel<D>>,
) {
    let packet = s.device.receive[0];
    let next = QueueState {
        device: NetworkModel { receive: s.device.receive.skip(1), ..s.device },
        ..s
    };
    let total = 10 + packet.len();
    if total > chain.writable {
        (Err(DeviceError::InvalidRequest), next)
    } else {
        match next.written(chain, 0, zeros(10)) {
            (Err(error), after) => (Err(error), after),
            (Ok(_), after) => match after.written(chain, 10, packet) {
                (Err(error), after) => (Err(error), after),
                (Ok(_), after) => match after.completed(0, chain, total as u32) {
                    (Err(error), last) => (Err(error), last),
                    (Ok(_), last) => (Ok(true), last),
                },
            },
        }
    }
}

/// Sends the frame in a chain of the transmit queue, without its header.
pub open spec fn network_sent<B: NetworkBackend>(
    s: QueueState<NetworkModel<B::Model>>,
    chain: ChainModel,
) -> (Result<bool, DeviceError>, QueueState<NetworkModel<B::Model>>) {
    if chain.readable < 10 {
        (Err(DeviceError::InvalidRequest), s)
    } else {
        match s.read(chain, 0, chain.readable as nat) {
            Err(error) => (Err(error), s),
            Ok(data) => {
                let (r, backend) = B::transmits(s.device.backend, data.skip(10));
                let next = QueueState { device: NetworkModel { backend, ..s.device }, ..s };
                match r {
                    Err(error) => (Err(error), next),
                    Ok(_) => match next.completed(1, chain, 0) {
                        (Err(error), last) => (Err(error), last),
                        (Ok(_), last) => (Ok(true), last),
                    },
                }
            },
        }
    }
}

/// Queues a frame from the host and delivers as many as the guest has room for.
pub open spec fn network_received<B: NetworkBackend>(
    s: QueueState<NetworkModel<B::Model>>,
    packet: Seq<u8>,
) -> (Result<(), DeviceError>, QueueState<NetworkModel<B::Model>>) {
    if s.transport.status & STATUS_DRIVER_OK == 0 {
        (Err(DeviceError::InvalidRequest), s)
    } else {
        served::<NetworkDevice<B>>(
            QueueState {
                device: NetworkModel { receive: s.device.receive.push(packet), ..s.device },
                ..s
            },
            0,
        )
    }
}

impl<B: NetworkBackend> NetworkDevice<B> {
    pub fn new(backend: B, mac: [u8; 6]) -> (r: Self)
        ensures
            r@ == (NetworkModel {
                backend: backend.model(),
                mac: mac@,
                receive: Seq::empty(),
                carrier: false,
            }),
    {
        NetworkDevice { backend, mac, receive: Vec::new(), carrier: false }
    }

    pub fn push_packet(&mut self, packet: Vec<u8>)
        ensures
            final(self)@ == (NetworkModel {
                receive: old(self)@.receive.push(packet@),
                ..old(self)@
            }),
    {
        self.receive.push(packet);
    }

    /// Delivers a frame to an already posted receive chain.
    ///
    /// # Errors
    ///
    /// Returns an error for an unavailable or malformed receive queue.
    pub fn receive_packet<M: MemoryAccess>(
        &mut self,
        transport: &mut VirtioTransport,
        memory: &mut M,
        packet: Vec<u8>,
    ) -> (r: Result<(), DeviceError>)
        requires
            old(transport)@.valid(),
            old(memory).model().valid(),
        ensures
            (
                r,
                QueueState {
                    device: final(self)@,
                    transport: final(transport)@,
                    memory: final(memory).model(),
                },
            ) == network_received::<B>(
                QueueState {
                    device: old(self)@,
                    transport: old(transport)@,
                    memory: old(memory).model(),
                },
                packet@,
            ),
            final(transport)@.valid(),
            final(memory).model().follows(old(memory).model()),
    {
        if transport.status() & STATUS_DRIVER_OK == 0 {
            return Err(DeviceError::InvalidRequest);
        }
        self.push_packet(packet);
        drain(self, transport, memory, QueueIndex(0))
    }

    /// Records the host carrier state and tells the driver.
    pub fn set_carrier(&mut self, transport: &mut VirtioTransport, up: bool)
        ensures
            final(self)@ == (NetworkModel { carrier: up, ..old(self)@ }),
            final(transport)@ == old(transport)@.config_changed(),
            old(transport)@.valid() ==> final(transport)@.valid(),
    {
        self.carrier = up;
        transport.raise_config_interrupt();
    }

    pub fn backend(&self) -> (r: &B)
        ensures
            *r == self.backend,
    {
        &self.backend
    }
}

impl<B: NetworkBackend> ChainServer for NetworkDevice<B> {
    type Model = NetworkModel<B::Model>;

    open spec fn state(&self) -> NetworkModel<B::Model> {
        self@
    }

    open spec fn sound(m: NetworkModel<B::Model>) -> bool {
        true
    }

    open spec fn wants(m: NetworkModel<B::Model>, queue: u16) -> bool {
        queue != 0 || m.receive.len() > 0
    }

    open spec fn serves(s: QueueState<NetworkModel<B::Model>>, queue: u16, chain: ChainModel) -> (
        Result<bool, DeviceError>,
        QueueState<NetworkModel<B::Model>>,
    ) {
        if queue == 0 {
            if s.device.receive.len() == 0 {
                (Ok(false), s)
            } else {
                network_delivered(s, chain)
            }
        } else if queue == 1 {
            network_sent::<B>(s, chain)
        } else {
            (Err(DeviceError::InvalidRequest), s)
        }
    }

    fn wanted(&self, queue: QueueIndex) -> (r: bool) {
        queue.0 != 0 || self.receive.len() > 0
    }

    fn serve<M: MemoryAccess>(
        &mut self,
        transport: &mut VirtioTransport,
        memory: &mut M,
        queue: QueueIndex,
        chain: DescriptorChain,
    ) -> (r: Result<bool, DeviceError>) {
        if queue.0 == 0 {
            if self.receive.len() == 0 {
                return Ok(false);
            }
            let packet: Vec<u8> = self.receive.remove(0);
            assert(contents(self.receive@) =~= old(self)@.receive.skip(1));
            assert(packet@ == old(self)@.receive[0]);
            let room: usize = chain.writable as usize;
            if room < NET_HEADER_LEN || packet.len() > room - NET_HEADER_LEN {
                return Err(DeviceError::InvalidRequest);
            }
            let header: Vec<u8> = bytes::zeros(NET_HEADER_LEN);
            assert(header@ =~= zeros(10));
            match put(transport, memory, &chain, 0, header.as_slice()) {
                Ok(()) => {},
                Err(error) => {
                    return Err(error);
                },
            }
            match put(transport, memory, &chain, 10, packet.as_slice()) {
                Ok(()) => {},
                Err(error) => {
                    return Err(error);
                },
            }
            match complete(
                transport,
                memory,
                queue,
                &chain,
                (NET_HEADER_LEN + packet.len()) as u32,
            ) {
                Ok(()) => Ok(true),
                Err(error) => Err(error),
            }
        } else if queue.0 == 1 {
            if chain.readable < 10 {
                return Err(DeviceError::InvalidRequest);
            }
            let data: Vec<u8> = match get(transport, memory, &chain, 0, chain.readable as usize) {
                Ok(data) => data,
                Err(error) => {
                    return Err(error);
                },
            };
            let packet: Vec<u8> = bytes::copy_range(
                data.as_slice(),
                NET_HEADER_LEN,
                data.len() - NET_HEADER_LEN,
            );
            assert(packet@ =~= data@.skip(10));
            match self.backend.transmit(packet.as_slice()) {
                Ok(()) => {},
                Err(error) => {
                    return Err(error);
                },
            }
            match complete(transport, memory, queue, &chain, 0) {
                Ok(()) => Ok(true),
                Err(error) => Err(error),
            }
        } else {
            Err(DeviceError::InvalidRequest)
        }
    }
}

impl<B: NetworkBackend> VirtioDevice for NetworkDevice<B> {
    type Model = NetworkModel<B::Model>;

    open spec fn model(&self) -> NetworkModel<B::Model> {
        self@
    }

    open spec fn valid(m: NetworkModel<B::Model>) -> bool {
        true
    }

    open spec fn configuration(m: NetworkModel<B::Model>, offset: u32, width: AccessWidth) -> u32 {
        config_value(m.mac, offset, width)
    }

    open spec fn configured(
        m: NetworkModel<B::Model>,
        offset: u32,
        value: u32,
        width: AccessWidth,
    ) -> NetworkModel<B::Model> {
        m
    }

    open spec fn cleared(m: NetworkModel<B::Model>) -> NetworkModel<B::Model> {
        m
    }

    open spec fn notified(s: QueueState<NetworkModel<B::Model>>, queue: u16) -> (
        Result<(), DeviceError>,
        QueueState<NetworkModel<B::Model>>,
    ) {
        served::<NetworkDevice<B>>(s, queue)
    }

    fn read_config(&self, offset: u32, width: AccessWidth) -> (r: u32) {
        config_bytes(self.mac.as_slice(), offset, width)
    }

    fn write_config(&mut self, offset: u32, value: u32, width: AccessWidth) {
    }

    fn reset(&mut self) {
    }

    fn notify<M: MemoryAccess>(
        &mut self,
        transport: &mut VirtioTransport,
        memory: &mut M,
        queue: QueueIndex,
    ) -> (r: Result<(), DeviceError>) {
        drain(self, transport, memory, queue)
    }
}

/// A 9p server.
pub trait NinePBackend {
    type Model;

    spec fn model(&self) -> Self::Model;

    /// The invariant of the model.
    spec fn valid(m: Self::Model) -> bool;

    /// The reply to a message, and the state after it.
    spec fn transacts(m: Self::Model, request: Seq<u8>) -> (
        Result<Seq<u8>, DeviceError>,
        Self::Model,
    );

    /// Processes one complete 9P message.
    ///
    /// # Errors
    ///
    /// Returns `DeviceError::Backend` when the host server fails.
    fn transact(&mut self, request: &[u8]) -> (r: Result<Vec<u8>, DeviceError>)
        requires
            Self::valid(old(self).model()),
        ensures
            match r {
                Ok(reply) => Self::transacts(old(self).model(), request@).0 == Ok::<
                    _,
                    DeviceError,
                >(reply@),
                Err(error) => Self::transacts(old(self).model(), request@).0 == Err::<Seq<u8>, _>(
                    error,
                ),
            },
            final(self).model() == Self::transacts(old(self).model(), request@).1,
            Self::valid(final(self).model()),
    ;
}

/// A 9p transport to a server.
pub struct NinePDevice<B> {
    pub backend: B,
    pub tag: Vec<u8>,
}

/// The model of a 9p transport.
#[verifier::ext_equal]
pub struct NinePModel<B> {
    pub backend: B,
    pub tag: Seq<u8>,
}

impl<B: NinePBackend> View for NinePDevice<B> {
    type V = NinePModel<B::Model>;

    open spec fn view(&self) -> NinePModel<B::Model> {
        NinePModel { backend: self.backend.model(), tag: self.tag@ }
    }
}

/// The configuration space of a 9p transport: the length of its tag and the
/// tag.
pub open spec fn tag_config(tag: Seq<u8>) -> Seq<u8> {
    bytes::le_bytes(
        if tag.len() > 0xffff {
            0xffff
        } else {
            tag.len()
        },
        2,
    ) + tag
}

pub(crate) fn tag_bytes(tag: &Vec<u8>) -> (r: Vec<u8>)
    ensures
        r@ == tag_config(tag@),
{
    let len: u64 = if tag.len() > 0xffff {
        0xffff
    } else {
        tag.len() as u64
    };
    let mut data: Vec<u8> = bytes::to_le(len, 2);
    data.extend_from_slice(tag.as_slice());
    data
}

impl<B: NinePBackend> NinePDevice<B> {
    pub fn new(backend: B, tag: &[u8]) -> (r: Self)
        ensures
            r@ == (NinePModel { backend: backend.model(), tag: tag@ }),
    {
        let tag: Vec<u8> = bytes::copy_range(tag, 0, tag.len());
        NinePDevice { backend, tag }
    }
}

impl<B: NinePBackend> ChainServer for NinePDevice<B> {
    type Model = NinePModel<B::Model>;

    open spec fn state(&self) -> NinePModel<B::Model> {
        self@
    }

    open spec fn sound(m: NinePModel<B::Model>) -> bool {
        B::valid(m.backend)
    }

    open spec fn wants(m: NinePModel<B::Model>, queue: u16) -> bool {
        true
    }

    /// A reply must be a sound message that carries the tag of its request and
    /// fits the chain.
    open spec fn serves(s: QueueState<NinePModel<B::Model>>, queue: u16, chain: ChainModel) -> (
        Result<bool, DeviceError>,
        QueueState<NinePModel<B::Model>>,
    ) {
        match s.read(chain, 0, chain.readable as nat) {
            Err(error) => (Err(error), s),
            Ok(request) => if !sound_9p(request) {
                (Err(DeviceError::InvalidRequest), s)
            } else {
                let (r, backend) = B::transacts(s.device.backend, request);
                let next = QueueState { device: NinePModel { backend, ..s.device }, ..s };
                match r {
                    Err(error) => (Err(error), next),
                    Ok(reply) => if !sound_9p(reply) || request.subrange(5, 7) != reply.subrange(
                        5,
                        7,
                    ) || reply.len() > chain.writable {
                        (Err(DeviceError::InvalidRequest), next)
                    } else {
                        match next.answered(queue, chain, reply) {
                            (Err(error), last) => (Err(error), last),
                            (Ok(_), last) => (Ok(true), last),
                        }
                    },
                }
            },
        }
    }

    fn wanted(&self, queue: QueueIndex) -> (r: bool) {
        true
    }

    fn serve<M: MemoryAccess>(
        &mut self,
        transport: &mut VirtioTransport,
        memory: &mut M,
        queue: QueueIndex,
        chain: DescriptorChain,
    ) -> (r: Result<bool, DeviceError>) {
        let request: Vec<u8> = match get(transport, memory, &chain, 0, chain.readable as usize) {
            Ok(request) => request,
            Err(error) => {
                return Err(error);
            },
        };
        if !validate_9p(request.as_slice()) {
            return Err(DeviceError::InvalidRequest);
        }
        let reply: Vec<u8> = match self.backend.transact(request.as_slice()) {
            Ok(reply) => reply,
            Err(error) => {
                return Err(error);
            },
        };
        if !validate_9p(reply.as_slice()) {
            return Err(DeviceError::InvalidRequest);
        }
        if !same_tag(request.as_slice(), reply.as_slice()) || reply.len() > chain.writable as usize {
            return Err(DeviceError::InvalidRequest);
        }
        match put(transport, memory, &chain, 0, reply.as_slice()) {
            Ok(()) => {},
            Err(error) => {
                return Err(error);
            },
        }
        match complete(transport, memory, queue, &chain, reply.len() as u32) {
            Ok(()) => Ok(true),
            Err(error) => Err(error),
        }
    }
}

fn same_tag(request: &[u8], reply: &[u8]) -> (r: bool)
    requires
        request@.len() >= 7,
        reply@.len() >= 7,
    ensures
        r == (request@.subrange(5, 7) == reply@.subrange(5, 7)),
{
    let a: Vec<u8> = bytes::copy_range(request, 5, 2);
    let b: Vec<u8> = bytes::copy_range(reply, 5, 2);
    bytes::same(a.as_slice(), b.as_slice())
}

impl<B: NinePBackend> VirtioDevice for NinePDevice<B> {
    type Model = NinePModel<B::Model>;

    open spec fn model(&self) -> NinePModel<B::Model> {
        self@
    }

    open spec fn valid(m: NinePModel<B::Model>) -> bool {
        B::valid(m.backend)
    }

    open spec fn configuration(m: NinePModel<B::Model>, offset: u32, width: AccessWidth) -> u32 {
        config_value(tag_config(m.tag), offset, width)
    }

    open spec fn configured(
        m: NinePModel<B::Model>,
        offset: u32,
        value: u32,
        width: AccessWidth,
    ) -> NinePModel<B::Model> {
        m
    }

    open spec fn cleared(m: NinePModel<B::Model>) -> NinePModel<B::Model> {
        m
    }

    open spec fn notified(s: QueueState<NinePModel<B::Model>>, queue: u16) -> (
        Result<(), DeviceError>,
        QueueState<NinePModel<B::Model>>,
    ) {
        served::<NinePDevice<B>>(s, queue)
    }

    fn read_config(&self, offset: u32, width: AccessWidth) -> (r: u32) {
        let data: Vec<u8> = tag_bytes(&self.tag);
        config_bytes(data.as_slice(), offset, width)
    }

    fn write_config(&mut self, offset: u32, value: u32, width: AccessWidth) {
    }

    fn reset(&mut self) {
    }

    fn notify<M: MemoryAccess>(
        &mut self,
        transport: &mut VirtioTransport,
        memory: &mut M,
        queue: QueueIndex,
    ) -> (r: Result<(), DeviceError>) {
        drain(self, transport, memory, queue)
    }
}

#[derive(Clone, Copy, Debug, PartialEq, Eq, Structural)]
pub struct InputEvent {
    pub kind: u16,
    pub code: u16,
    pub value: u32,
}

#[derive(Clone, Copy, Debug, PartialEq, Eq, Structural)]
pub enum InputKind {
    Keyboard,
    Mouse,
    Tablet,
}

/// An input device; events wait for chains of the event queue.
pub struct InputDevice {
    pub kind: InputKind,
    pub select: u8,
    pub subsel: u8,
    pub events: Vec<InputEvent>,
    pub buttons: u32,
}

/// The model of an input device.
#[verifier::ext_equal]
pub struct InputModel {
    pub kind: InputKind,
    pub select: u8,
    pub subsel: u8,
    pub events: Seq<InputEvent>,
    pub buttons: u32,
}

impl View for InputDevice {
    type V = InputModel;

    open spec fn view(&self) -> InputModel {
        InputModel {
            kind: self.kind,
            select: self.select,
            subsel: self.subsel,
            events: self.events@,
            buttons: self.buttons,
        }
    }
}

/// The name that an input device reports, in ASCII.
pub open spec fn input_name(kind: InputKind) -> Seq<u8> {
    match kind {
        InputKind::Keyboard => seq![
            118u8,
            105,
            114,
            116,
            105,
            111,
            95,
            107,
            101,
            121,
            98,
            111,
            97,
            114,
            100,
        ],
        InputKind::Mouse => seq![118u8, 105, 114, 116, 105, 111, 95, 109, 111, 117, 115, 101],
        InputKind::Tablet => seq![
            118u8,
            105,
            114,
            116,
            105,
            111,
            95,
            116,
            97,
            98,
            108,
            101,
            116,
        ],
    }
}

fn device_name(kind: InputKind) -> (r: Vec<u8>)
    ensures
        r@ == input_name(kind),
        r@.len() <= 15,
{
    let name: Vec<u8> = match kind {
        InputKind::Keyboard => vec![
            118, 105, 114, 116, 105, 111, 95, 107, 101, 121, 98, 111, 97, 114, 100,
        ],
        InputKind::Mouse => vec![118, 105, 114, 116, 105, 111, 95, 109, 111, 117, 115, 101],
        InputKind::Tablet => vec![118, 105, 114, 116, 105, 111, 95, 116, 97, 98, 108, 101, 116],
    };
    assert(name@ =~= input_name(kind));
    name
}

/// The bitmap of the codes that a device sends for a kind of event, below
/// `base`: every code of a keyboard; three buttons, two axes and the wheel of
/// a pointer.
pub open spec fn input_event_bitmap(kind: InputKind, event: u8, base: Seq<u8>) -> Seq<u8> {
    if kind is Keyboard && event == 1 {
        bytes::spliced(base.update(2, 16), 8, Seq::new(16, |i: int| 0xffu8))
    } else if kind is Keyboard && event == 0x14 {
        base.update(2, 1)
    } else if !(kind is Keyboard) && event == 1 {
        base.update(2, 64).update(42, 7)
    } else if kind is Mouse && event == 2 {
        base.update(2, 2).update(8, 3).update(9, 1)
    } else if kind is Tablet && event == 2 {
        base.update(2, 2).update(9, 1)
    } else if kind is Tablet && event == 3 {
        base.update(2, 1).update(8, 3)
    } else {
        base
    }
}

/// The configuration space of an input device.
pub open spec fn input_config(m: InputModel) -> Seq<u8> {
    let base = zeros(256).update(0, m.select).update(1, m.subsel);
    let name = input_name(m.kind);
    if m.select == 1 {
        bytes::spliced(base.update(2, name.len() as u8), 8, name)
    } else if m.select == 0x11 {
        input_event_bitmap(m.kind, m.subsel, base)
    } else if m.select == 0x12 && m.kind is Tablet && m.subsel <= 1 {
        bytes::spliced(base.update(2, 20), 12, bytes::le_bytes(32_767, 4))
    } else {
        base
    }
}

fn input_event_bits(kind: InputKind, event: u8, config: &mut Vec<u8>)
    requires
        old(config)@.len() == 256,
    ensures
        final(config)@ == input_event_bitmap(kind, event, old(config)@),
{
    if kind == InputKind::Keyboard {
        if event == 1 {
            config.set(2, 16);
            let mut ones: Vec<u8> = Vec::new();
            ones.resize(16, 0xff);
            assert(ones@ =~= Seq::new(16, |i: int| 0xffu8));
            bytes::splice(config, 8, ones.as_slice());
        } else if event == 0x14 {
            config.set(2, 1);
        }
    } else if event == 1 {
        config.set(2, 64);
        config.set(42, 7);
    } else if event == 2 {
        config.set(2, 2);
        if kind == InputKind::Mouse {
            config.set(8, 3);
        }
        config.set(9, 1);
    } else if kind == InputKind::Tablet && event == 3 {
        config.set(2, 1);
        config.set(8, 3);
    }
}

/// An event as the guest sees it.
pub open spec fn event_bytes(event: InputEvent) -> Seq<u8> {
    bytes::le_bytes(event.kind as nat, 2) + bytes::le_bytes(event.code as nat, 2)
        + bytes::le_bytes(event.value as nat, 4)
}

/// Marks the end of what happened at once.
pub open spec fn sync_event() -> InputEvent {
    InputEvent { kind: 0, code: 0, value: 0 }
}

/// The event of one button, if its state changes.
pub open spec fn button_event(before: u32, after: u32, mask: u32, code: u16) -> Seq<InputEvent> {
    if after & mask != before & mask {
        seq![
            InputEvent {
                kind: 1,
                code,
                value: if after & mask != 0 {
                    1
                } else {
                    0
                },
            },
        ]
    } else {
        Seq::empty()
    }
}

/// The events of a pointer: both axes, the wheel if it moved, the buttons that
/// changed, and the end mark.
pub open spec fn pointer_events(
    kind: u16,
    x: i32,
    y: i32,
    wheel: i32,
    before: u32,
    after: u32,
) -> Seq<InputEvent> {
    seq![
        InputEvent { kind, code: 0, value: x as u32 },
        InputEvent { kind, code: 1, value: y as u32 },
    ] + (if wheel != 0 {
        seq![InputEvent { kind: 2, code: 8, value: wheel as u32 }]
    } else {
        Seq::empty()
    }) + button_event(before, after, 1, 0x110) + button_event(before, after, 2, 0x111)
        + button_event(before, after, 4, 0x112) + seq![sync_event()]
}

/// Sends a key transition, if the device is a keyboard that the driver runs.
pub open spec fn key_sent(s: QueueState<InputModel>, code: u16, down: bool) -> (
    Result<(), DeviceError>,
    QueueState<InputModel>,
) {
    if !(s.device.kind is Keyboard) || s.transport.status & STATUS_DRIVER_OK == 0 {
        (Err(DeviceError::InvalidRequest), s)
    } else {
        served::<InputDevice>(
            QueueState {
                device: InputModel {
                    events: s.device.events + seq![
                        InputEvent {
                            kind: 1,
                            code,
                            value: if down {
                                1
                            } else {
                                0
                            },
                        },
                        sync_event(),
                    ],
                    ..s.device
                },
                ..s
            },
            0,
        )
    }
}

/// Sends pointer movement, if the device is a pointer that the driver runs.
pub open spec fn pointer_sent(
    s: QueueState<InputModel>,
    x: i32,
    y: i32,
    wheel: i32,
    buttons: u32,
) -> (Result<(), DeviceError>, QueueState<InputModel>) {
    if s.device.kind is Keyboard || s.transport.status & STATUS_DRIVER_OK == 0 {
        (Err(DeviceError::InvalidRequest), s)
    } else {
        served::<InputDevice>(
            QueueState {
                device: InputModel {
                    events: s.device.events + pointer_events(
                        if s.device.kind is Mouse {
                            2
                        } else {
                            3
                        },
                        x,
                        y,
                        wheel,
                        s.device.buttons,
                        buttons,
                    ),
                    buttons,
                    ..s.device
                },
                ..s
            },
            0,
        )
    }
}

impl InputDevice {
    #[must_use]
    pub fn new(kind: InputKind) -> (r: Self)
        ensures
            r@ == (InputModel { kind, select: 0, subsel: 0, events: Seq::empty(), buttons: 0 }),
    {
        InputDevice { kind, select: 0, subsel: 0, events: Vec::new(), buttons: 0 }
    }

    pub fn push_event(&mut self, event: InputEvent)
        ensures
            final(self)@ == (InputModel { events: old(self)@.events.push(event), ..old(self)@ }),
    {
        self.events.push(event);
    }

    /// Sends a key transition followed by a synchronization event.
    ///
    /// # Errors
    ///
    /// Returns an error for a non-keyboard device or unavailable event chains.
    pub fn send_key<M: MemoryAccess>(
        &mut self,
        transport: &mut VirtioTransport,
        memory: &mut M,
        code: u16,
        down: bool,
    ) -> (r: Result<(), DeviceError>)
        requires
            old(transport)@.valid(),
            old(memory).model().valid(),
        ensures
            (
                r,
                QueueState {
                    device: final(self)@,
                    transport: final(transport)@,
                    memory: final(memory).model(),
                },
            ) == key_sent(
                QueueState {
                    device: old(self)@,
                    transport: old(transport)@,
                    memory: old(memory).model(),
                },
                code,
                down,
            ),
            final(transport)@.valid(),
            final(memory).model().follows(old(memory).model()),
    {
        if self.kind != InputKind::Keyboard || transport.status() & STATUS_DRIVER_OK == 0 {
            return Err(DeviceError::InvalidRequest);
        }
        let value: u32 = if down {
            1
        } else {
            0
        };
        self.events.push(InputEvent { kind: 1, code, value });
        self.events.push(InputEvent { kind: 0, code: 0, value: 0 });
        assert(self@.events =~= old(self)@.events + seq![
            InputEvent { kind: 1, code, value },
            sync_event(),
        ]);
        drain(self, transport, memory, QueueIndex(0))
    }

    fn push_button(&mut self, buttons: u32, mask: u32, code: u16)
        ensures
            final(self)@ == (InputModel {
                events: old(self)@.events + button_event(
                    old(self)@.buttons,
                    buttons,
                    mask,
                    code,
                ),
                ..old(self)@
            }),
    {
        if buttons & mask != self.buttons & mask {
            let value: u32 = if buttons & mask != 0 {
                1
            } else {
                0
            };
            self.events.push(InputEvent { kind: 1, code, value });
        }
    }

    /// Sends relative mouse or absolute tablet movement, button changes, and synchronization.
    ///
    /// # Errors
    ///
    /// Returns an error for a keyboard device or unavailable event chains.
    pub fn send_pointer<M: MemoryAccess>(
        &mut self,
        transport: &mut VirtioTransport,
        memory: &mut M,
        position: (i32, i32),
        wheel: i32,
        buttons: u32,
    ) -> (r: Result<(), DeviceError>)
        requires
            old(transport)@.valid(),
            old(memory).model().valid(),
        ensures
            (
                r,
                QueueState {
                    device: final(self)@,
                    transport: final(transport)@,
                    memory: final(memory).model(),
                },
            ) == pointer_sent(
                QueueState {
                    device: old(self)@,
                    transport: old(transport)@,
                    memory: old(memory).model(),
                },
                position.0,
                position.1,
                wheel,
                buttons,
            ),
            final(transport)@.valid(),
            final(memory).model().follows(old(memory).model()),
    {
        if transport.status() & STATUS_DRIVER_OK == 0 {
            return Err(DeviceError::InvalidRequest);
        }
        let kind: u16 = match self.kind {
            InputKind::Mouse => 2,
            InputKind::Tablet => 3,
            InputKind::Keyboard => {
                return Err(DeviceError::InvalidRequest);
            },
        };
        self.events.push(InputEvent { kind, code: 0, value: position.0 as u32 });
        self.events.push(InputEvent { kind, code: 1, value: position.1 as u32 });
        if wheel != 0 {
            self.events.push(InputEvent { kind: 2, code: 8, value: wheel as u32 });
        }
        self.push_button(buttons, 1, 0x110);
        self.push_button(buttons, 2, 0x111);
        self.push_button(buttons, 4, 0x112);
        self.buttons = buttons;
        self.events.push(InputEvent { kind: 0, code: 0, value: 0 });
        assert(self@.events =~= old(self)@.events + pointer_events(
            kind,
            position.0,
            position.1,
            wheel,
            old(self)@.buttons,
            buttons,
        ));
        drain(self, transport, memory, QueueIndex(0))
    }
}

impl ChainServer for InputDevice {
    type Model = InputModel;

    open spec fn state(&self) -> InputModel {
        self@
    }

    open spec fn sound(m: InputModel) -> bool {
        true
    }

    open spec fn wants(m: InputModel, queue: u16) -> bool {
        queue != 0 || m.events.len() > 0
    }

    open spec fn serves(s: QueueState<InputModel>, queue: u16, chain: ChainModel) -> (
        Result<bool, DeviceError>,
        QueueState<InputModel>,
    ) {
        if queue == 0 {
            if s.device.events.len() == 0 {
                (Ok(false), s)
            } else if chain.writable < 8 {
                (Err(DeviceError::InvalidRequest), s)
            } else {
                let next = QueueState {
                    device: InputModel { events: s.device.events.skip(1), ..s.device },
                    ..s
                };
                match next.written(chain, 0, event_bytes(s.device.events[0])) {
                    (Err(error), after) => (Err(error), after),
                    (Ok(_), after) => match after.completed(queue, chain, 8) {
                        (Err(error), last) => (Err(error), last),
                        (Ok(_), last) => (Ok(true), last),
                    },
                }
            }
        } else if queue == 1 {
            match s.completed(queue, chain, 0) {
                (Err(error), last) => (Err(error), last),
                (Ok(_), last) => (Ok(true), last),
            }
        } else {
            (Err(DeviceError::InvalidRequest), s)
        }
    }

    fn wanted(&self, queue: QueueIndex) -> (r: bool) {
        queue.0 != 0 || self.events.len() > 0
    }

    fn serve<M: MemoryAccess>(
        &mut self,
        transport: &mut VirtioTransport,
        memory: &mut M,
        queue: QueueIndex,
        chain: DescriptorChain,
    ) -> (r: Result<bool, DeviceError>) {
        if queue.0 == 0 {
            if self.events.len() == 0 {
                return Ok(false);
            }
            if chain.writable < 8 {
                return Err(DeviceError::InvalidRequest);
            }
            let event: InputEvent = self.events.remove(0);
            assert(self@.events =~= old(self)@.events.skip(1));
            let mut data: Vec<u8> = bytes::to_le(event.kind as u64, 2);
            let mut code: Vec<u8> = bytes::to_le(event.code as u64, 2);
            let mut value: Vec<u8> = bytes::to_le(event.value as u64, 4);
            data.append(&mut code);
            data.append(&mut value);
            match put(transport, memory, &chain, 0, data.as_slice()) {
                Ok(()) => {},
                Err(error) => {
                    return Err(error);
                },
            }
            match complete(transport, memory, queue, &chain, 8) {
                Ok(()) => Ok(true),
                Err(error) => Err(error),
            }
        } else if queue.0 == 1 {
            match complete(transport, memory, queue, &chain, 0) {
                Ok(()) => Ok(true),
                Err(error) => Err(error),
            }
        } else {
            Err(DeviceError::InvalidRequest)
        }
    }
}

impl VirtioDevice for InputDevice {
    type Model = InputModel;

    open spec fn model(&self) -> InputModel {
        self@
    }

    open spec fn valid(m: InputModel) -> bool {
        true
    }

    open spec fn configuration(m: InputModel, offset: u32, width: AccessWidth) -> u32 {
        config_value(input_config(m), offset, width)
    }

    open spec fn configured(
        m: InputModel,
        offset: u32,
        value: u32,
        width: AccessWidth,
    ) -> InputModel {
        if width is Byte && offset == 0 {
            InputModel { select: (value % 256) as u8, ..m }
        } else if width is Byte && offset == 1 {
            InputModel { subsel: (value % 256) as u8, ..m }
        } else {
            m
        }
    }

    open spec fn cleared(m: InputModel) -> InputModel {
        m
    }

    open spec fn notified(s: QueueState<InputModel>, queue: u16) -> (
        Result<(), DeviceError>,
        QueueState<InputModel>,
    ) {
        served::<InputDevice>(s, queue)
    }

    fn read_config(&self, offset: u32, width: AccessWidth) -> (r: u32) {
        let mut config: Vec<u8> = bytes::zeros(256);
        config.set(0, self.select);
        config.set(1, self.subsel);
        assert(config@ =~= zeros(256).update(0, self.select).update(1, self.subsel));
        if self.select == 1 {
            let name: Vec<u8> = device_name(self.kind);
            config.set(2, name.len() as u8);
            bytes::splice(&mut config, 8, name.as_slice());
        } else if self.select == 0x11 {
            input_event_bits(self.kind, self.subsel, &mut config);
        } else if self.select == 0x12 && self.kind == InputKind::Tablet && self.subsel <= 1 {
            config.set(2, 20);
            let maximum: Vec<u8> = bytes::to_le(32_767, 4);
            bytes::splice(&mut config, 12, maximum.as_slice());
        }
        config_bytes(config.as_slice(), offset, width)
    }

    fn write_config(&mut self, offset: u32, value: u32, width: AccessWidth) {
        if width == AccessWidth::Byte {
            if offset == 0 {
                self.select = (value % 256) as u8;
            } else if offset == 1 {
                self.subsel = (value % 256) as u8;
            }
        }
    }

    fn reset(&mut self) {
    }

    fn notify<M: MemoryAccess>(
        &mut self,
        transport: &mut VirtioTransport,
        memory: &mut M,
        queue: QueueIndex,
    ) -> (r: Result<(), DeviceError>) {
        drain(self, transport, memory, queue)
    }
}

} // verus!
