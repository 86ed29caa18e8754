//! What a guest sees of its disk: it lays out requests in its memory, and finds
//! there what became of them.

use vstd::prelude::*;
use crate::browser_storage::{self, sector_of, HttpBlockStore, StoreModel};
use crate::bytes;
use crate::memory::{self, AccessWidth, MemoryModel};
use crate::virtio::{self, ChainModel, Segment, TransportModel};
use crate::virtio_devices::{
    block_ended,
    block_requested,
    zeros,
    BlockModel,
    BlockRequestStatus,
    DeviceError,
    QueueState,
};

verus! {

/// Whether bytes stand in guest memory.
pub open spec fn says(m: MemoryModel, address: u64, data: Seq<u8>) -> bool {
    m.read_bytes(address, data.len()) == Ok::<Seq<u8>, memory::MemoryError>(data)
}

/// Whether what is written to one place leaves another as it is.
pub open spec fn apart(m: MemoryModel, a: u64, n: nat, b: u64, len: nat) -> bool {
    match (m.resolve(a, n, true), m.resolve(b, len, false)) {
        (Ok(x), Ok(y)) => y + len <= x || x + n <= y,
        _ => true,
    }
}

/// Whether bytes lie outside the ring in which a queue gives back its chains.
pub open spec fn beside_ring(m: MemoryModel, t: TransportModel, queue: u16, b: u64, len: nat) -> bool {
    let ring = t.queues[queue as int];
    forall|a: u64, n: nat|
        ring.used <= a && a + n <= ring.used + 4 + 8 * ring.size ==> #[trigger] apart(
            m,
            a,
            n,
            b,
            len,
        )
}

/// A request to the disk: a header of 16 bytes that the disk reads, with the kind
/// of the request at its start and the sector in its second half; the data, which
/// the disk reads for a write and writes for a read; and a byte for the status.
pub open spec fn is_request(
    m: MemoryModel,
    chain: ChainModel,
    header: (u64, Seq<u8>),
    data: (u64, u32),
    status: u64,
    writing: bool,
) -> bool {
    &&& chain.segments == seq![
        Segment { address: header.0, len: 16, writable: false },
        Segment { address: data.0, len: data.1, writable: !writing },
        Segment { address: status, len: 1, writable: true },
    ]
    &&& chain.readable == 16 + if writing {
        data.1 as int
    } else {
        0
    }
    &&& chain.writable == 1 + if writing {
        0
    } else {
        data.1 as int
    }
    &&& header.1.len() == 16
    &&& says(m, header.0, header.1)
    &&& data.0 + data.1 <= u64::MAX
}

/// Whether one memory maps what another does.
pub open spec fn same_map(m: MemoryModel, n: MemoryModel) -> bool {
    &&& n.valid()
    &&& forall|b: u64, len: nat, write: bool| #[trigger]
        n.resolve(b, len, write) == m.resolve(b, len, write)
}

pub proof fn lemma_write(m: MemoryModel, a: u64, data: Seq<u8>, b: u64, len: nat)
    requires
        m.valid(),
        apart(m, a, data.len(), b, len),
    ensures
        same_map(m, m.write_bytes(a, data)),
        m.write_bytes(a, data).read_bytes(b, len) == m.read_bytes(b, len),
        m.resolve(a, data.len(), true) is Ok ==> says(m.write_bytes(a, data), a, data),
{
    memory::lemma_write_follows(m, a, data);
    memory::lemma_write_keeps_mapping(m, a, data);
    if m.resolve(a, data.len(), true) is Ok {
        memory::law_read_after_write(m, a, data);
        if m.resolve(b, len, false) is Ok {
            memory::law_write_leaves_rest(m, a, data, b, len);
        }
    }
}

proof fn lemma_ring_write(
    m: MemoryModel,
    t: TransportModel,
    queue: u16,
    offset: int,
    base: u64,
    width: AccessWidth,
    value: u64,
    b: u64,
    len: nat,
)
    requires
        m.valid(),
        beside_ring(m, t, queue, b, len),
        t.queues[queue as int].used <= base + offset,
        offset >= 0,
        base + offset + width.size() <= t.queues[queue as int].used + 4 + 8
            * t.queues[queue as int].size,
    ensures
        same_map(m, virtio::ring_write(m, base, offset, width, value).1),
        virtio::ring_write(m, base, offset, width, value).1.read_bytes(b, len) == m.read_bytes(
            b,
            len,
        ),
        beside_ring(virtio::ring_write(m, base, offset, width, value).1, t, queue, b, len),
{
    let data = bytes::le_bytes(value as nat, width.size());
    bytes::lemma_le_bytes_len(value as nat, width.size());
    let n = virtio::ring_write(m, base, offset, width, value).1;
    if base + offset <= u64::MAX {
        let a = (base + offset) as u64;
        assert(apart(m, a, data.len(), b, len));
        lemma_write(m, a, data, b, len);
    }
    lemma_ring_follows(m, n, t, queue, b, len);
}

/// Giving back a chain changes nothing but the ring.
pub proof fn lemma_completes(
    t: TransportModel,
    m: MemoryModel,
    queue: u16,
    chain: ChainModel,
    written: u32,
    b: u64,
    len: nat,
)
    requires
        m.valid(),
        beside_ring(m, t, queue, b, len),
    ensures
        same_map(m, t.completes(m, queue, chain, written).2),
        t.completes(m, queue, chain, written).2.read_bytes(b, len) == m.read_bytes(b, len),
{
    let ring = t.queues[queue as int];
    if queue < 8 && virtio::queue_fault(ring) is None && written <= chain.writable {
        if let Ok(used) = virtio::ring_value(m, ring.used, 2, AccessWidth::HalfWord) {
            let slot = used as int % ring.size as int;
            assert(ring.size > 0);
            assert(0 <= slot < ring.size);
            if let Ok(element) = virtio::address_sum(ring.used, 4 + slot * 8) {
                lemma_ring_write(
                    m,
                    t,
                    queue,
                    0,
                    element,
                    AccessWidth::Word,
                    chain.head as u64,
                    b,
                    len,
                );
                let n = virtio::ring_write(m, element, 0, AccessWidth::Word, chain.head as u64).1;
                lemma_ring_write(
                    n,
                    t,
                    queue,
                    4,
                    element,
                    AccessWidth::Word,
                    written as u64,
                    b,
                    len,
                );
                let o = virtio::ring_write(n, element, 4, AccessWidth::Word, written as u64).1;
                let next = (used as u16).wrapping_add(1) as u64;
                lemma_ring_write(
                    o,
                    t,
                    queue,
                    2,
                    ring.used,
                    AccessWidth::HalfWord,
                    next,
                    b,
                    len,
                );
            }
        }
    }
}

/// What lies beside a ring lies beside it in any memory with the same map.
pub proof fn lemma_ring_follows(
    m: MemoryModel,
    n: MemoryModel,
    t: TransportModel,
    queue: u16,
    b: u64,
    len: nat,
)
    requires
        same_map(m, n),
        beside_ring(m, t, queue, b, len),
    ensures
        beside_ring(n, t, queue, b, len),
{
    let ring = t.queues[queue as int];
    assert forall|a: u64, k: nat|
        ring.used <= a && a + k <= ring.used + 4 + 8 * ring.size implies #[trigger] apart(
        n,
        a,
        k,
        b,
        len,
    ) by {
        assert(apart(m, a, k, b, len));
    }
}

/// A request that ends leaves its status, and what lies beside the ring.
proof fn lemma_ended<D>(
    s: QueueState<D>,
    queue: u16,
    chain: ChainModel,
    header: (u64, Seq<u8>),
    data: (u64, u32),
    status: u64,
    writing: bool,
    code: u8,
    written: u32,
    keeps: bool,
    kept: u64,
    len: nat,
)
    requires
        s.memory.valid(),
        is_request(s.memory, chain, header, data, status, writing),
        beside_ring(s.memory, s.transport, queue, status, 1),
        keeps ==> beside_ring(s.memory, s.transport, queue, kept, len) && apart(
            s.memory,
            status,
            1,
            kept,
            len,
        ),
    ensures
        ({
            let (r, after) = block_ended(s, queue, chain, code, written);
            &&& after.device == s.device
            &&& r matches Ok(done) ==> done == BlockRequestStatus::Complete
            &&& r matches Err(error) ==> error is Queue
            &&& r is Ok ==> says(after.memory, status, seq![code])
            &&& r is Ok && keeps ==> after.memory.read_bytes(kept, len) == s.memory.read_bytes(
                kept,
                len,
            )
        }),
{
    reveal_with_fuel(virtio::scatter, 4);
    let byte = seq![code];
    let offset = (chain.writable - 1) as u32;
    assert(byte.subrange(0, 1) =~= byte);
    assert(s.written(chain, offset, byte).1.memory == s.memory.write_bytes(status, byte));
    let n = s.memory.write_bytes(status, byte);
    if s.written(chain, offset, byte).0 is Ok {
        memory::lemma_write_follows(s.memory, status, byte);
        memory::lemma_write_keeps_mapping(s.memory, status, byte);
        memory::law_read_after_write(s.memory, status, byte);
        lemma_ring_follows(s.memory, n, s.transport, queue, status, 1);
        lemma_completes(s.transport, n, queue, chain, written, status, 1);
        if keeps {
            lemma_write(s.memory, status, byte, kept, len);
            lemma_ring_follows(s.memory, n, s.transport, queue, kept, len);
            lemma_completes(s.transport, n, queue, chain, written, kept, len);
        }
    }
}

/// What the disk reads of a request.
proof fn lemma_header(
    s: QueueState<BlockModel<StoreModel>>,
    chain: ChainModel,
    header: (u64, Seq<u8>),
    data: (u64, u32),
    status: u64,
    writing: bool,
)
    requires
        s.memory.valid(),
        is_request(s.memory, chain, header, data, status, writing),
    ensures
        s.read(chain, 0, 16) == Ok::<Seq<u8>, DeviceError>(header.1),
        bytes::le_value(header.1.subrange(0, 4)) == bytes::u32_at(header.1, 0),
        bytes::le_value(header.1.subrange(8, 16)) == bytes::u64_at(header.1, 8),
{
    reveal_with_fuel(virtio::gather, 4);
    assert(bytes::spliced(zeros(16), 0, header.1) =~= header.1);
    bytes::lemma_numbers_at(header.1, 0);
    bytes::lemma_numbers_at(header.1, 8);
}

/// A write request (kind 1) that lies on the disk ends with a status byte, waits
/// for blocks that are not here, or meets a queue that cannot be served. With
/// status 0, the sectors from the one that its header names on hold its data, in
/// order, and every other sector holds what it held. With any other status the
/// storage has refused the write.
pub proof fn law_disk_write(
    s: QueueState<BlockModel<StoreModel>>,
    queue: u16,
    chain: ChainModel,
    header: (u64, Seq<u8>),
    data: (u64, u32),
    status: u64,
    content: Seq<u8>,
    other: u64,
)
    requires
        s.memory.valid(),
        s.device.backend.valid(),
        is_request(s.memory, chain, header, data, status, true),
        bytes::u32_at(header.1, 0) == 1,
        data.1 > 0,
        data.1 % 512 == 0,
        bytes::u64_at(header.1, 8) + data.1 / 512 <= s.device.backend.capacity(),
        content.len() == data.1,
        says(s.memory, data.0, content),
        beside_ring(s.memory, s.transport, queue, status, 1),
        other < s.device.backend.capacity(),
    ensures
        ({
            let (r, after) = block_requested::<HttpBlockStore>(s, queue, chain);
            let first = bytes::u64_at(header.1, 8);
            let count = data.1 as int / 512;
            let done = r == Ok::<BlockRequestStatus, DeviceError>(BlockRequestStatus::Complete);
            &&& done ==> says(after.memory, status, seq![0u8]) || says(
                after.memory,
                status,
                seq![1u8],
            )
            &&& done && says(after.memory, status, seq![0u8]) ==> {
                &&& after.device.backend.valid()
                &&& after.device.backend.capacity() == s.device.backend.capacity()
                &&& first <= other < first + count ==> after.device.backend.content(other) == Some(
                    content.subrange(512 * (other - first), 512 * (other - first) + 512),
                )
                &&& !(first <= other < first + count) && s.device.backend.content(other) is Some
                    ==> after.device.backend.content(other) == s.device.backend.content(other)
            }
            &&& done && says(after.memory, status, seq![1u8]) ==> s.device.backend.writes(
                first as u64,
                content,
            ).0 is Err
            &&& r matches Err(error) ==> error is Queue
        }),
{
    lemma_header(s, chain, header, data, status, true);
    let sector = bytes::u64_at(header.1, 8) as u64;
    let store = s.device.backend;
    browser_storage::lemma_capacity(store);
    reveal_with_fuel(virtio::gather, 4);
    assert(bytes::spliced(zeros(content.len()), 0, content) =~= content);
    assert(s.read(chain, 16, content.len()) == Ok::<Seq<u8>, DeviceError>(content));
    let (r, backend) = store.writes(sector, content);
    let next = QueueState { device: BlockModel { backend, ..s.device }, ..s };
    let code = if r is Ok {
        0u8
    } else {
        1u8
    };
    lemma_ended(
        next,
        queue,
        chain,
        header,
        data,
        status,
        true,
        code,
        1,
        false,
        status,
        1,
    );
    assert(seq![0u8][0] != seq![1u8][0]);
    if r is Ok {
        browser_storage::lemma_writes_from(store, sector, content, 0, other);
        browser_storage::law_write_changes_its_sectors(store, sector, content, other);
        if sector <= other < sector + content.len() / 512 {
            assert(sector_of(content, (other - sector) as nat) == content.subrange(
                512 * (other - sector),
                512 * (other - sector) + 512,
            ));
        }
    }
}

/// A read request (kind 0) for sectors whose content is here ends with status 0
/// and leaves that content in the buffer, sector after sector, unless the queue
/// cannot be served.
pub proof fn law_disk_read(
    s: QueueState<BlockModel<StoreModel>>,
    queue: u16,
    chain: ChainModel,
    header: (u64, Seq<u8>),
    data: (u64, u32),
    status: u64,
    content: Seq<u8>,
)
    requires
        s.memory.valid(),
        s.device.backend.valid(),
        is_request(s.memory, chain, header, data, status, false),
        bytes::u32_at(header.1, 0) == 0,
        data.1 > 0,
        data.1 % 512 == 0,
        data.1 < u32::MAX,
        bytes::u64_at(header.1, 8) + data.1 / 512 <= s.device.backend.capacity(),
        content.len() == data.1,
        forall|k: int|
            0 <= k < data.1 / 512 ==> s.device.backend.content(
                (bytes::u64_at(header.1, 8) + k) as u64,
            ) == Some(#[trigger] sector_of(content, k as nat)),
        beside_ring(s.memory, s.transport, queue, status, 1),
        beside_ring(s.memory, s.transport, queue, data.0, data.1 as nat),
        apart(s.memory, status, 1, data.0, data.1 as nat),
        apart(s.memory, data.0, data.1 as nat, header.0, 16),
    ensures
        ({
            let (r, after) = block_requested::<HttpBlockStore>(s, queue, chain);
            match r {
                Ok(done) => done == BlockRequestStatus::Complete && says(
                    after.memory,
                    status,
                    seq![0u8],
                ) && says(after.memory, data.0, content),
                Err(error) => error is Queue,
            }
        }),
{
    lemma_header(s, chain, header, data, status, false);
    let sector = bytes::u64_at(header.1, 8) as u64;
    let store = s.device.backend;
    let buffer = zeros(content.len());
    browser_storage::lemma_capacity(store);
    assert forall|j: nat| 0 <= j && (j + 1) * 512 <= buffer.len() implies (#[trigger] store.content(
        (sector + j) as u64,
    )) is Some by {
        let k = j as int;
        assert(sector_of(content, k as nat) == sector_of(content, j));
        assert(k < data.1 / 512);
        assert((sector + j) as u64 == (bytes::u64_at(header.1, 8) + k) as u64);
    }
    browser_storage::lemma_known_read(store, sector, buffer, 0);
    let (r, filled, backend) = store.reads(sector, buffer);
    browser_storage::lemma_read_data(store, sector, buffer, 0, 0);
    assert forall|i: int| 0 <= i < content.len() implies filled[i] == content[i] by {
        let j = (i / 512) as nat;
        browser_storage::lemma_read_data(store, sector, buffer, 0, j);
        assert(sector_of(content, j) == sector_of(filled, j));
        assert(sector_of(filled, j)[i - j * 512] == filled[i]);
        assert(sector_of(content, j)[i - j * 512] == content[i]);
    }
    assert(filled =~= content);
    let next = QueueState { device: BlockModel { backend, ..s.device }, ..s };
    reveal_with_fuel(virtio::scatter, 4);
    assert(content.subrange(0, content.len() as int) =~= content);
    lemma_write(s.memory, data.0, content, header.0, 16);
    let written = next.written(chain, 0, content);
    if written.0 is Ok {
        let n = s.memory.write_bytes(data.0, content);
        assert(written.1.memory == n);
        assert(is_request(n, chain, header, data, status, false));
        lemma_ring_follows(s.memory, n, s.transport, queue, status, 1);
        lemma_ring_follows(s.memory, n, s.transport, queue, data.0, data.1 as nat);
        lemma_ended(
            written.1,
            queue,
            chain,
            header,
            data,
            status,
            false,
            0,
            chain.writable,
            true,
            data.0,
            data.1 as nat,
        );
    }
}

/// What a guest writes to its disk it reads back. A write request ends with
/// status 0; a later read request for the same sectors, whatever memory and
/// queues look like by that time, ends with status 0 and leaves in its buffer the
/// bytes that were written, unless its queue cannot be served.
pub proof fn law_disk_reads_back_what_was_written(
    s: QueueState<BlockModel<StoreModel>>,
    queue: u16,
    chain: ChainModel,
    header: (u64, Seq<u8>),
    data: (u64, u32),
    status: u64,
    content: Seq<u8>,
    later: QueueState<BlockModel<StoreModel>>,
    later_queue: u16,
    later_chain: ChainModel,
    later_header: (u64, Seq<u8>),
    buffer: u64,
    later_status: u64,
)
    requires
        s.memory.valid(),
        s.device.backend.valid(),
        is_request(s.memory, chain, header, data, status, true),
        bytes::u32_at(header.1, 0) == 1,
        data.1 > 0,
        data.1 % 512 == 0,
        bytes::u64_at(header.1, 8) + data.1 / 512 <= s.device.backend.capacity(),
        content.len() == data.1,
        says(s.memory, data.0, content),
        beside_ring(s.memory, s.transport, queue, status, 1),
        ({
            let (r, after) = block_requested::<HttpBlockStore>(s, queue, chain);
            &&& r == Ok::<BlockRequestStatus, DeviceError>(BlockRequestStatus::Complete)
            &&& says(after.memory, status, seq![0u8])
            &&& later.device.backend == after.device.backend
        }),
        later.memory.valid(),
        is_request(
            later.memory,
            later_chain,
            later_header,
            (buffer, data.1),
            later_status,
            false,
        ),
        bytes::u32_at(later_header.1, 0) == 0,
        bytes::u64_at(later_header.1, 8) == bytes::u64_at(header.1, 8),
        beside_ring(later.memory, later.transport, later_queue, later_status, 1),
        beside_ring(later.memory, later.transport, later_queue, buffer, data.1 as nat),
        apart(later.memory, later_status, 1, buffer, data.1 as nat),
        apart(later.memory, buffer, data.1 as nat, later_header.0, 16),
    ensures
        ({
            let (r, after) = block_requested::<HttpBlockStore>(later, later_queue, later_chain);
            match r {
                Ok(done) => done == BlockRequestStatus::Complete && says(
                    after.memory,
                    later_status,
                    seq![0u8],
                ) && says(after.memory, buffer, content),
                Err(error) => error is Queue,
            }
        }),
{
    let sector = bytes::u64_at(header.1, 8);
    assert forall|k: int| 0 <= k < data.1 / 512 implies later.device.backend.content(
        (sector + k) as u64,
    ) == Some(#[trigger] sector_of(content, k as nat)) by {
        browser_storage::lemma_capacity(s.device.backend);
        law_disk_write(s, queue, chain, header, data, status, content, (sector + k) as u64);
    }
    law_disk_write(s, queue, chain, header, data, status, content, sector as u64);
    law_disk_read(
        later,
        later_queue,
        later_chain,
        later_header,
        (buffer, data.1),
        later_status,
        content,
    );
}

/// A request for the disk's name (kind 8) gives its twenty bytes. A request of any
/// other kind but reading and writing ends with status 2.
pub proof fn law_disk_name(
    s: QueueState<BlockModel<StoreModel>>,
    queue: u16,
    chain: ChainModel,
    header: (u64, Seq<u8>),
    data: (u64, u32),
    status: u64,
)
    requires
        s.memory.valid(),
        s.device.id.len() == 20,
        is_request(s.memory, chain, header, data, status, false),
        bytes::u32_at(header.1, 0) != 0,
        bytes::u32_at(header.1, 0) != 1,
        data.1 < u32::MAX,
        beside_ring(s.memory, s.transport, queue, status, 1),
        beside_ring(s.memory, s.transport, queue, data.0, data.1 as nat),
        apart(s.memory, status, 1, data.0, data.1 as nat),
        apart(s.memory, data.0, data.1 as nat, header.0, 16),
    ensures
        ({
            let (r, after) = block_requested::<HttpBlockStore>(s, queue, chain);
            let named = bytes::u32_at(header.1, 0) == 8 && data.1 == 20;
            &&& after.device == s.device
            &&& match r {
                Ok(done) => {
                    &&& done == BlockRequestStatus::Complete
                    &&& says(
                        after.memory,
                        status,
                        seq![
                            if named {
                                0u8
                            } else {
                                2u8
                            },
                        ],
                    )
                    &&& named ==> says(after.memory, data.0, s.device.id)
                    &&& !named ==> after.memory.read_bytes(data.0, data.1 as nat)
                        == s.memory.read_bytes(data.0, data.1 as nat)
                },
                Err(error) => error is Queue,
            }
        }),
{
    lemma_header(s, chain, header, data, status, false);
    let named = bytes::u32_at(header.1, 0) == 8 && data.1 == 20;
    if named {
        let id = s.device.id;
        reveal_with_fuel(virtio::scatter, 4);
        assert(id.subrange(0, 20) =~= id);
        lemma_write(s.memory, data.0, id, header.0, 16);
        let written = s.written(chain, 0, id);
        if written.0 is Ok {
            let n = s.memory.write_bytes(data.0, id);
            assert(written.1.memory == n);
            assert(is_request(n, chain, header, data, status, false));
            lemma_ring_follows(s.memory, n, s.transport, queue, status, 1);
            lemma_ring_follows(s.memory, n, s.transport, queue, data.0, 20);
            lemma_ended(
                written.1,
                queue,
                chain,
                header,
                data,
                status,
                false,
                0,
                21,
                true,
                data.0,
                20,
            );
        }
    } else {
        lemma_ended(
            s,
            queue,
            chain,
            header,
            data,
            status,
            false,
            2,
            1,
            true,
            data.0,
            data.1 as nat,
        );
    }
}

} // verus!
