//! What a guest sends through its console and its network card, and what it gets.

use vstd::prelude::*;
use crate::disk::{apart, beside_ring, lemma_completes, lemma_ring_follows, lemma_write, says};
use crate::memory;
use crate::virtio::{self, ChainModel, Segment};
use crate::virtio_devices::{
    console_collected,
    console_delivered,
    network_delivered,
    network_sent,
    zeros,
    ConsoleModel,
    DeviceError,
    NetworkBackend,
    NetworkModel,
    QueueState,
};

verus! {

/// A chain of one part that the device reads, or writes.
pub open spec fn is_buffer(chain: ChainModel, address: u64, len: u32, writable: bool) -> bool {
    &&& chain.segments == seq![Segment { address, len, writable }]
    &&& chain.readable == if writable {
        0
    } else {
        len
    }
    &&& chain.writable == if writable {
        len
    } else {
        0
    }
    &&& address + len <= u64::MAX
}

proof fn lemma_read<D>(s: QueueState<D>, chain: ChainModel, address: u64, data: Seq<u8>)
    requires
        s.memory.valid(),
        0 < data.len() < u32::MAX,
        is_buffer(chain, address, data.len() as u32, false),
        says(s.memory, address, data),
    ensures
        s.read(chain, 0, data.len()) == Ok::<Seq<u8>, DeviceError>(data),
{
    reveal_with_fuel(virtio::gather, 2);
    assert(crate::bytes::spliced(zeros(data.len()), 0, data) =~= data);
}

proof fn lemma_written<D>(
    s: QueueState<D>,
    chain: ChainModel,
    address: u64,
    len: u32,
    offset: u32,
    data: Seq<u8>,
)
    requires
        s.memory.valid(),
        is_buffer(chain, address, len, true),
        0 < data.len(),
        offset + data.len() <= len,
        len < u32::MAX,
    ensures
        ({
            let place = (address + offset) as u64;
            let (r, after) = s.written(chain, offset, data);
            &&& after.device == s.device && after.transport == s.transport
            &&& after.memory == s.memory.write_bytes(place, data)
            &&& r is Ok ==> s.memory.resolve(place, data.len(), true) is Ok
            &&& r matches Err(error) ==> error is Queue
        }),
{
    reveal_with_fuel(virtio::scatter, 2);
    assert(data.subrange(0, data.len() as int) =~= data);
}

/// What a guest hands to its console comes out behind what came out before.
pub proof fn law_console_output(
    s: QueueState<ConsoleModel>,
    chain: ChainModel,
    address: u64,
    data: Seq<u8>,
)
    requires
        s.memory.valid(),
        0 < data.len() < u32::MAX,
        is_buffer(chain, address, data.len() as u32, false),
        says(s.memory, address, data),
    ensures
        ({
            let (r, after) = console_collected(s, chain);
            &&& after.device.output == s.device.output + data
            &&& after.device.input == s.device.input
            &&& r matches Ok(done) ==> done
            &&& r matches Err(error) ==> error is Queue
        }),
{
    lemma_read(s, chain, address, data);
}

/// What waits for a guest is put into its buffer, from the start and as much as there
/// is room for, and the rest waits on.
pub proof fn law_console_input(
    s: QueueState<ConsoleModel>,
    chain: ChainModel,
    address: u64,
    len: u32,
)
    requires
        s.memory.valid(),
        0 < len < u32::MAX,
        0 < s.device.input.len(),
        is_buffer(chain, address, len, true),
        ({
            let count = if s.device.input.len() < len {
                s.device.input.len()
            } else {
                len as nat
            };
            beside_ring(s.memory, s.transport, 0, address, count)
        }),
    ensures
        ({
            let input = s.device.input;
            let count = if input.len() < len {
                input.len() as int
            } else {
                len as int
            };
            let (r, after) = console_delivered(s, chain);
            &&& r is Ok ==> {
                &&& says(after.memory, address, input.subrange(0, count))
                &&& after.device.input == input.subrange(count, input.len() as int)
                &&& after.device.output == s.device.output
            }
            &&& r matches Err(error) ==> error is Queue
        }),
{
    let input = s.device.input;
    let count = if input.len() < len {
        input.len()
    } else {
        len as nat
    };
    let part = input.take(count as int);
    assert(part =~= input.subrange(0, count as int));
    assert(input.skip(count as int) =~= input.subrange(count as int, input.len() as int));
    lemma_written(s, chain, address, len, 0, part);
    let (r, after) = s.written(chain, 0, part);
    if r is Ok {
        memory::lemma_write_follows(s.memory, address, part);
        memory::lemma_write_keeps_mapping(s.memory, address, part);
        memory::law_read_after_write(s.memory, address, part);
        lemma_ring_follows(s.memory, after.memory, s.transport, 0, address, count);
        lemma_completes(s.transport, after.memory, 0, chain, count as u32, address, count);
    }
}

/// A frame that a guest sends goes to the host without its header of ten bytes.
pub proof fn law_network_output<B: NetworkBackend>(
    s: QueueState<NetworkModel<B::Model>>,
    chain: ChainModel,
    address: u64,
    header: Seq<u8>,
    frame: Seq<u8>,
)
    requires
        s.memory.valid(),
        header.len() == 10,
        10 + frame.len() < u32::MAX,
        is_buffer(chain, address, (10 + frame.len()) as u32, false),
        says(s.memory, address, header + frame),
    ensures
        ({
            let (r, after) = network_sent::<B>(s, chain);
            let (sent, backend) = B::transmits(s.device.backend, frame);
            &&& after.device.backend == backend
            &&& sent is Err ==> r is Err
            &&& r is Ok ==> sent is Ok
        }),
{
    lemma_read(s, chain, address, header + frame);
    assert((header + frame).skip(10) =~= frame);
}

/// A frame that waits for a guest is put into its buffer behind ten zeros, and the
/// frames behind it wait on. A frame that does not fit is lost.
pub proof fn law_network_input<B>(
    s: QueueState<NetworkModel<B>>,
    chain: ChainModel,
    address: u64,
    len: u32,
)
    requires
        s.memory.valid(),
        0 < len < u32::MAX,
        s.device.receive.len() > 0,
        s.device.receive[0].len() > 0,
        is_buffer(chain, address, len, true),
        ({
            let size = s.device.receive[0].len();
            let place = (address + 10) as u64;
            &&& beside_ring(s.memory, s.transport, 0, address, 10)
            &&& beside_ring(s.memory, s.transport, 0, place, size)
            &&& apart(s.memory, place, size, address, 10)
        }),
    ensures
        ({
            let frame = s.device.receive[0];
            let (r, after) = network_delivered(s, chain);
            &&& after.device.receive == s.device.receive.skip(1)
            &&& 10 + frame.len() > len ==> r == Err::<bool, _>(DeviceError::InvalidRequest)
                && after.memory == s.memory
            &&& r is Ok ==> says(after.memory, address, zeros(10)) && says(
                after.memory,
                (address + 10) as u64,
                frame,
            )
        }),
{
    let frame = s.device.receive[0];
    let next = QueueState {
        device: NetworkModel { receive: s.device.receive.skip(1), ..s.device },
        ..s
    };
    let place = (address + 10) as u64;
    if 10 + frame.len() <= len {
        lemma_written(next, chain, address, len, 0, zeros(10));
        let (r, first) = next.written(chain, 0, zeros(10));
        if r is Ok {
            memory::lemma_write_follows(s.memory, address, zeros(10));
            memory::lemma_write_keeps_mapping(s.memory, address, zeros(10));
            memory::law_read_after_write(s.memory, address, zeros(10));
            let m = first.memory;
            lemma_written(first, chain, address, len, 10, frame);
            let (q, second) = first.written(chain, 10, frame);
            if q is Ok {
                lemma_write(m, place, frame, address, 10);
                let n = second.memory;
                assert(crate::disk::same_map(s.memory, n));
                lemma_ring_follows(s.memory, n, s.transport, 0, address, 10);
                lemma_ring_follows(s.memory, n, s.transport, 0, place, frame.len());
                let total = (10 + frame.len()) as u32;
                lemma_completes(s.transport, n, 0, chain, total, address, 10);
                lemma_completes(s.transport, n, 0, chain, total, place, frame.len());
            }
        }
    }
}

} // verus!
