//! Asynchronous 9p channels between guest devices and servers of the host page.

use std::collections::VecDeque;
use vstd::prelude::*;
use crate::bytes;
use crate::guest_memory::MemoryAccess;
use crate::memory::AccessWidth;
use crate::virtio::{ChainModel, DescriptorChain, QueueIndex, VirtioTransport};
use crate::virtio_devices::{
    self, ChainServer, DeviceError, QueueState, VirtioDevice,
};

verus! {

#[derive(Clone, Copy, Debug, PartialEq, Eq, Structural)]
pub struct NinePEndpointId(pub u32);

#[derive(Clone, Copy, Debug, PartialEq, Eq, Structural)]
pub struct NinePGeneration(pub u32);

#[derive(Clone, Copy, Debug, PartialEq, Eq, Structural)]
pub struct NinePRequestId(pub u32);

/// What the host does for a channel.
#[derive(Clone, Debug, PartialEq, Eq)]
pub enum NinePTransportAction {
    Open { endpoint: NinePEndpointId, generation: NinePGeneration, server_key: String },
    Close { endpoint: NinePEndpointId, generation: NinePGeneration },
    Request {
        endpoint: NinePEndpointId,
        generation: NinePGeneration,
        request_id: NinePRequestId,
        bytes: Vec<u8>,
        reply_capacity: u32,
    },
}

/// How the host answers a request.
#[derive(Clone, Debug, PartialEq, Eq)]
pub enum NinePOutcome {
    Reply(Vec<u8>),
    Suppressed,
    EndpointFailure,
}

/// The model of an action.
pub enum ActionModel {
    Open { endpoint: u32, generation: u32, server_key: Seq<char> },
    Close { endpoint: u32, generation: u32 },
    Request {
        endpoint: u32,
        generation: u32,
        request_id: u32,
        bytes: Seq<u8>,
        reply_capacity: u32,
    },
}

/// The model of an answer.
pub enum OutcomeModel {
    Reply(Seq<u8>),
    Suppressed,
    EndpointFailure,
}

impl View for NinePTransportAction {
    type V = ActionModel;

    open spec fn view(&self) -> ActionModel {
        match self {
            NinePTransportAction::Open { endpoint, generation, server_key } => ActionModel::Open {
                endpoint: endpoint.0,
                generation: generation.0,
                server_key: server_key@,
            },
            NinePTransportAction::Close { endpoint, generation } => ActionModel::Close {
                endpoint: endpoint.0,
                generation: generation.0,
            },
            NinePTransportAction::Request {
                endpoint,
                generation,
                request_id,
                bytes,
                reply_capacity,
            } => ActionModel::Request {
                endpoint: endpoint.0,
                generation: generation.0,
                request_id: request_id.0,
                bytes: bytes@,
                reply_capacity: *reply_capacity,
            },
        }
    }
}

impl View for NinePOutcome {
    type V = OutcomeModel;

    open spec fn view(&self) -> OutcomeModel {
        match self {
            NinePOutcome::Reply(reply) => OutcomeModel::Reply(reply@),
            NinePOutcome::Suppressed => OutcomeModel::Suppressed,
            NinePOutcome::EndpointFailure => OutcomeModel::EndpointFailure,
        }
    }
}

/// The models of a list of actions.
pub open spec fn action_models(actions: Seq<NinePTransportAction>) -> Seq<ActionModel> {
    actions.map_values(|action: NinePTransportAction| action@)
}

/// The host side of a channel: what waits to be done by the page.
pub struct BrowserNineP {
    pub endpoint: NinePEndpointId,
    pub generation: NinePGeneration,
    pub server_key: String,
    pub actions: VecDeque<NinePTransportAction>,
}

/// The model of the host side of a channel.
#[verifier::ext_equal]
pub struct ChannelModel {
    pub endpoint: u32,
    pub generation: u32,
    pub server_key: Seq<char>,
    pub actions: Seq<ActionModel>,
}

impl View for BrowserNineP {
    type V = ChannelModel;

    open spec fn view(&self) -> ChannelModel {
        ChannelModel {
            endpoint: self.endpoint.0,
            generation: self.generation.0,
            server_key: self.server_key@,
            actions: action_models(self.actions@),
        }
    }
}

impl ChannelModel {
    /// A channel that is to be opened.
    pub open spec fn initial(endpoint: u32, server_key: Seq<char>) -> ChannelModel {
        ChannelModel {
            endpoint,
            generation: 1,
            server_key,
            actions: seq![ActionModel::Open { endpoint, generation: 1, server_key }],
        }
    }

    pub open spec fn submitted(self, request_id: u32, request: Seq<u8>, reply_capacity: u32) -> ChannelModel {
        ChannelModel {
            actions: self.actions.push(
                ActionModel::Request {
                    endpoint: self.endpoint,
                    generation: self.generation,
                    request_id,
                    bytes: request,
                    reply_capacity,
                },
            ),
            ..self
        }
    }

    /// Closes the channel and opens it again under a new generation.
    pub open spec fn restarted(self, generation: u32) -> ChannelModel {
        ChannelModel {
            generation,
            actions: self.actions.push(
                ActionModel::Close { endpoint: self.endpoint, generation: self.generation },
            ).push(
                ActionModel::Open {
                    endpoint: self.endpoint,
                    generation,
                    server_key: self.server_key,
                },
            ),
            ..self
        }
    }

    /// Takes the oldest action.
    pub open spec fn taken(self) -> ChannelModel {
        if self.actions.len() == 0 {
            self
        } else {
            ChannelModel { actions: self.actions.skip(1), ..self }
        }
    }
}

impl BrowserNineP {
    #[must_use]
    pub fn new(endpoint: NinePEndpointId, server_key: String) -> (r: Self)
        ensures
            r@ == ChannelModel::initial(endpoint.0, server_key@),
    {
        let generation = NinePGeneration(1);
        let mut actions: VecDeque<NinePTransportAction> = VecDeque::new();
        let key: String = server_key.clone();
        actions.push_back(NinePTransportAction::Open { endpoint, generation, server_key: key });
        let r = BrowserNineP { endpoint, generation, server_key, actions };
        assert(r@ =~= ChannelModel::initial(endpoint.0, server_key@));
        r
    }

    /// Queues a request for the server.
    pub fn submit(&mut self, request_id: NinePRequestId, request: Vec<u8>, reply_capacity: u32)
        ensures
            final(self)@ == old(self)@.submitted(request_id.0, request@, reply_capacity),
    {
        let endpoint: NinePEndpointId = self.endpoint;
        let generation: NinePGeneration = self.generation;
        self.actions.push_back(
            NinePTransportAction::Request {
                endpoint,
                generation,
                request_id,
                bytes: request,
                reply_capacity,
            },
        );
        assert(self@ =~= old(self)@.submitted(request_id.0, request@, reply_capacity));
    }

    /// Drops the session with the server and starts another one.
    pub fn reset(&mut self, generation: NinePGeneration)
        ensures
            final(self)@ == old(self)@.restarted(generation.0),
    {
        let endpoint: NinePEndpointId = self.endpoint;
        let closed: NinePGeneration = self.generation;
        let key: String = self.server_key.clone();
        self.actions.push_back(NinePTransportAction::Close { endpoint, generation: closed });
        self.generation = generation;
        self.actions.push_back(NinePTransportAction::Open { endpoint, generation, server_key: key });
        assert(self@ =~= old(self)@.restarted(generation.0));
    }

    /// Takes the next action for the host.
    pub fn next_transport_action(&mut self) -> (r: Option<NinePTransportAction>)
        ensures
            match r {
                Some(action) => old(self)@.actions.len() > 0 && action@ == old(self)@.actions[0],
                None => old(self)@.actions.len() == 0,
            },
            final(self)@ == old(self)@.taken(),
    {
        let action: Option<NinePTransportAction> = self.actions.pop_front();
        assert(action is Some ==> action_models(self.actions@) =~= old(self)@.actions.skip(1));
        assert(action is None ==> action_models(self.actions@) =~= old(self)@.actions);
        action
    }

    pub fn has_transport_action(&self) -> (r: bool)
        ensures
            r == (self@.actions.len() > 0),
    {
        self.actions.len() > 0
    }
}

/// A request that waits for its answer.
pub struct WaitingRequest {
    pub id: u32,
    pub queue: QueueIndex,
    pub chain: DescriptorChain,
    pub tag: Vec<u8>,
}

/// The model of a request that waits for its answer.
pub struct WaitingModel {
    pub id: u32,
    pub queue: u16,
    pub chain: ChainModel,
    pub tag: Seq<u8>,
}

impl View for WaitingRequest {
    type V = WaitingModel;

    open spec fn view(&self) -> WaitingModel {
        WaitingModel { id: self.id, queue: self.queue.0, chain: self.chain@, tag: self.tag@ }
    }
}

/// The models of a list of waiting requests.
pub open spec fn waiting_models(waiting: Seq<WaitingRequest>) -> Seq<WaitingModel> {
    waiting.map_values(|request: WaitingRequest| request@)
}

/// A 9p transport whose server answers later. Requests of an earlier session
/// are told from those of the present one by their generation.
pub struct EndpointDevice {
    pub backend: BrowserNineP,
    pub tag: Vec<u8>,
    pub next_request: u32,
    pub waiting: Vec<WaitingRequest>,
}

/// The model of an asynchronous 9p transport.
#[verifier::ext_equal]
pub struct EndpointModel {
    pub backend: ChannelModel,
    pub tag: Seq<u8>,
    pub next_request: u32,
    pub waiting: Seq<WaitingModel>,
}

impl View for EndpointDevice {
    type V = EndpointModel;

    open spec fn view(&self) -> EndpointModel {
        EndpointModel {
            backend: self.backend@,
            tag: self.tag@,
            next_request: self.next_request,
            waiting: waiting_models(self.waiting@),
        }
    }
}

/// Where a request waits, or the number of waiting requests.
pub open spec fn waiting_place(waiting: Seq<WaitingModel>, id: u32) -> nat
    decreases waiting.len(),
{
    if waiting.len() == 0 || waiting[0].id == id {
        0
    } else {
        1 + waiting_place(waiting.skip(1), id)
    }
}

proof fn lemma_waiting_place(waiting: Seq<WaitingModel>, id: u32, i: int)
    requires
        0 <= i <= waiting.len(),
        forall|j: int| 0 <= j < i ==> (#[trigger] waiting[j]).id != id,
        i < waiting.len() ==> waiting[i].id == id,
    ensures
        waiting_place(waiting, id) == i,
    decreases i,
{
    if i > 0 {
        let rest = waiting.skip(1);
        assert forall|j: int| 0 <= j < i - 1 implies (#[trigger] rest[j]).id != id by {
            assert(rest[j] == waiting[j + 1]);
        }
        if i < waiting.len() {
            assert(rest[i - 1] == waiting[i]);
        }
        lemma_waiting_place(rest, id, i - 1);
    }
}

/// Takes the answer to a request. An answer for an earlier session is dropped;
/// one for no request of the present session, a malformed one and the failure
/// of the server are errors.
pub open spec fn endpoint_completed(
    s: QueueState<EndpointModel>,
    generation: u32,
    id: u32,
    outcome: OutcomeModel,
) -> (Result<(), DeviceError>, QueueState<EndpointModel>) {
    let i = waiting_place(s.device.waiting, id) as int;
    if generation != s.device.backend.generation {
        (Ok(()), s)
    } else if i >= s.device.waiting.len() {
        (Err(DeviceError::InvalidRequest), s)
    } else {
        let request = s.device.waiting[i];
        let next = QueueState {
            device: EndpointModel { waiting: s.device.waiting.remove(i), ..s.device },
            ..s
        };
        match outcome {
            OutcomeModel::EndpointFailure => (Err(DeviceError::Backend), next),
            OutcomeModel::Suppressed => next.completed(request.queue, request.chain, 0),
            OutcomeModel::Reply(reply) => if !virtio_devices::sound_9p(reply) || reply.subrange(
                5,
                7,
            ) != request.tag || reply.len() > request.chain.writable {
                (Err(DeviceError::InvalidRequest), next)
            } else {
                next.answered(request.queue, request.chain, reply)
            },
        }
    }
}

impl EndpointDevice {
    pub fn new(backend: BrowserNineP, tag: &[u8]) -> (r: Self)
        ensures
            r@ == (EndpointModel {
                backend: backend@,
                tag: tag@,
                next_request: 1,
                waiting: Seq::empty(),
            }),
    {
        let tag: Vec<u8> = bytes::copy_range(tag, 0, tag.len());
        EndpointDevice { backend, tag, next_request: 1, waiting: Vec::new() }
    }

    fn find(&self, id: u32) -> (r: usize)
        ensures
            r == waiting_place(self@.waiting, id),
            r <= self.waiting@.len(),
    {
        let mut i: usize = 0;
        while i < self.waiting.len() && self.waiting[i].id != id
            invariant
                i <= self.waiting.len(),
                forall|j: int| 0 <= j < i ==> (#[trigger] self@.waiting[j]).id != id,
            decreases self.waiting.len() - i,
        {
            i = i + 1;
        }
        proof {
            lemma_waiting_place(self@.waiting, id, i as int);
        }
        i
    }

    /// Completes one request of the guest.
    ///
    /// # Errors
    ///
    /// Returns an error for a duplicate in the present generation, a malformed
    /// response, an endpoint failure, or an invalid guest descriptor.
    pub fn complete<M: MemoryAccess>(
        &mut self,
        transport: &mut VirtioTransport,
        memory: &mut M,
        generation: NinePGeneration,
        request_id: NinePRequestId,
        outcome: NinePOutcome,
    ) -> (r: Result<(), DeviceError>)
        requires
            old(transport)@.valid(),
            old(memory).model().valid(),
        ensures
            (
                r,
                QueueState {
                    device: final(self)@,
                    transport: final(transport)@,
                    memory: final(memory).model(),
                },
            ) == endpoint_completed(
                QueueState {
                    device: old(self)@,
                    transport: old(transport)@,
                    memory: old(memory).model(),
                },
                generation.0,
                request_id.0,
                outcome@,
            ),
            final(transport)@.valid(),
            final(memory).model().follows(old(memory).model()),
    {
        if generation.0 != self.backend.generation.0 {
            return Ok(());
        }
        let i: usize = self.find(request_id.0);
        if i >= self.waiting.len() {
            return Err(DeviceError::InvalidRequest);
        }
        let request: WaitingRequest = self.waiting.remove(i);
        assert(self@.waiting =~= old(self)@.waiting.remove(i as int));
        match outcome {
            NinePOutcome::EndpointFailure => Err(DeviceError::Backend),
            NinePOutcome::Suppressed => virtio_devices::complete(
                transport,
                memory,
                request.queue,
                &request.chain,
                0,
            ),
            NinePOutcome::Reply(reply) => {
                if !virtio_devices::validate_9p(reply.as_slice()) {
                    return Err(DeviceError::InvalidRequest);
                }
                let tag: Vec<u8> = bytes::copy_range(reply.as_slice(), 5, 2);
                if !bytes::same(tag.as_slice(), request.tag.as_slice()) || reply.len()
                    > request.chain.writable as usize {
                    return Err(DeviceError::InvalidRequest);
                }
                match virtio_devices::put(
                    transport,
                    memory,
                    &request.chain,
                    0,
                    reply.as_slice(),
                ) {
                    Ok(()) => {},
                    Err(error) => {
                        return Err(error);
                    },
                }
                virtio_devices::complete(
                    transport,
                    memory,
                    request.queue,
                    &request.chain,
                    reply.len() as u32,
                )
            },
        }
    }
}

impl ChainServer for EndpointDevice {
    type Model = EndpointModel;

    open spec fn state(&self) -> EndpointModel {
        self@
    }

    open spec fn sound(m: EndpointModel) -> bool {
        true
    }

    open spec fn wants(m: EndpointModel, queue: u16) -> bool {
        true
    }

    open spec fn serves(s: QueueState<EndpointModel>, queue: u16, chain: ChainModel) -> (
        Result<bool, DeviceError>,
        QueueState<EndpointModel>,
    ) {
        match s.read(chain, 0, chain.readable as nat) {
            Err(error) => (Err(error), s),
            Ok(request) => if !virtio_devices::sound_9p(request) {
                (Err(DeviceError::InvalidRequest), s)
            } else {
                let id = s.device.next_request;
                (
                    Ok(true),
                    QueueState {
                        device: EndpointModel {
                            backend: s.device.backend.submitted(id, request, chain.writable),
                            next_request: id.wrapping_add(1),
                            waiting: s.device.waiting.push(
                                WaitingModel { id, queue, chain, tag: request.subrange(5, 7) },
                            ),
                            ..s.device
                        },
                        ..s
                    },
                )
            },
        }
    }

    fn wanted(&self, queue: QueueIndex) -> (r: bool) {
        true
    }

    fn serve<M: MemoryAccess>(
        &mut self,
        transport: &mut VirtioTransport,
        memory: &mut M,
        queue: QueueIndex,
        chain: DescriptorChain,
    ) -> (r: Result<bool, DeviceError>) {
        let request: Vec<u8> = match virtio_devices::get(
            transport,
            memory,
            &chain,
            0,
            chain.readable as usize,
        ) {
            Ok(request) => request,
            Err(error) => {
                return Err(error);
            },
        };
        if !virtio_devices::validate_9p(request.as_slice()) {
            return Err(DeviceError::InvalidRequest);
        }
        let id: u32 = self.next_request;
        self.next_request = id.wrapping_add(1);
        let tag: Vec<u8> = bytes::copy_range(request.as_slice(), 5, 2);
        self.backend.submit(NinePRequestId(id), request, chain.writable);
        self.waiting.push(WaitingRequest { id, queue, chain, tag });
        assert(self@.waiting =~= old(self)@.waiting.push(
            WaitingModel { id, queue: queue.0, chain: chain@, tag: tag@ },
        ));
        Ok(true)
    }
}

impl VirtioDevice for EndpointDevice {
    type Model = EndpointModel;

    open spec fn model(&self) -> EndpointModel {
        self@
    }

    open spec fn valid(m: EndpointModel) -> bool {
        true
    }

    open spec fn configuration(m: EndpointModel, offset: u32, width: AccessWidth) -> u32 {
        virtio_devices::config_value(virtio_devices::tag_config(m.tag), offset, width)
    }

    open spec fn configured(
        m: EndpointModel,
        offset: u32,
        value: u32,
        width: AccessWidth,
    ) -> EndpointModel {
        m
    }

    /// A reset starts another session.
    open spec fn cleared(m: EndpointModel) -> EndpointModel {
        EndpointModel {
            backend: m.backend.restarted(m.backend.generation.wrapping_add(1)),
            waiting: Seq::empty(),
            ..m
        }
    }

    open spec fn notified(s: QueueState<EndpointModel>, queue: u16) -> (
        Result<(), DeviceError>,
        QueueState<EndpointModel>,
    ) {
        virtio_devices::served::<EndpointDevice>(s, queue)
    }

    fn read_config(&self, offset: u32, width: AccessWidth) -> (r: u32) {
        let data: Vec<u8> = virtio_devices::tag_bytes(&self.tag);
        virtio_devices::config_bytes(data.as_slice(), offset, width)
    }

    fn write_config(&mut self, offset: u32, value: u32, width: AccessWidth) {
    }

    fn reset(&mut self) {
        let generation: u32 = self.backend.generation.0.wrapping_add(1);
        self.backend.reset(NinePGeneration(generation));
        self.waiting = Vec::new();
        assert(self@.waiting =~= Seq::empty());
    }

    fn notify<M: MemoryAccess>(
        &mut self,
        transport: &mut VirtioTransport,
        memory: &mut M,
        queue: QueueIndex,
    ) -> (r: Result<(), DeviceError>) {
        virtio_devices::drain(self, transport, memory, queue)
    }
}

/// An answer that comes after a reset changes nothing.
pub proof fn law_late_answer_is_dropped(
    s: QueueState<EndpointModel>,
    id: u32,
    outcome: OutcomeModel,
)
    ensures
        ({
            let after = QueueState { device: EndpointDevice::cleared(s.device), ..s };
            endpoint_completed(after, s.device.backend.generation, id, outcome) == (
                Ok::<(), DeviceError>(()),
                after,
            )
        }),
{
}

} // verus!
