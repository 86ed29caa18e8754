//! What a driver and a device say to each other through registers and rings in
//! guest memory, byte by byte.

use vstd::prelude::*;
use crate::bytes;
use crate::disk::{apart, says};
use crate::memory::{self, AccessWidth, MemoryModel};
use crate::virtio::{self, ChainModel, QueueError, Segment, TransportModel, VirtQueue};

verus! {

/// The lower and the upper 32 bits of a number.
pub open spec fn half(value: u64, upper: bool) -> int {
    if upper {
        value as int / 0x1_0000_0000
    } else {
        value as int % 0x1_0000_0000
    }
}

/// The registers that name the device: the letters `virt`, version 2, the kind of
/// the device, and what it can do, in halves that a selector picks.
pub proof fn law_identity(t: TransportModel)
    requires
        t.valid(),
    ensures
        t.register(0, AccessWidth::Word) == 0x7472_6976,
        t.register(4, AccessWidth::Word) == 2,
        t.register(8, AccessWidth::Word) == t.device_id,
        t.written(0x14, 0, AccessWidth::Word).register(0x10, AccessWidth::Word) == half(
            t.device_features,
            false,
        ),
        t.written(0x14, 1, AccessWidth::Word).register(0x10, AccessWidth::Word) == half(
            t.device_features,
            true,
        ),
        forall|selector: u32|
            selector > 1 ==> #[trigger] t.written(0x14, selector, AccessWidth::Word).register(
                0x10,
                AccessWidth::Word,
            ) == 0,
{
}

/// A driver accepts features in two halves, and they are the number that the
/// halves make up.
pub proof fn law_accepted_features(t: TransportModel, low: u32, high: u32)
    requires
        t.valid(),
    ensures
        t.written(0x24, 0, AccessWidth::Word).written(0x20, low, AccessWidth::Word).written(
            0x24,
            1,
            AccessWidth::Word,
        ).written(0x20, high, AccessWidth::Word).driver_features == low + 0x1_0000_0000 * high,
{
    let first = t.written(0x24, 0, AccessWidth::Word).written(0x20, low, AccessWidth::Word);
    bytes::law_halves(t.driver_features, low);
    bytes::law_halves(first.driver_features, high);
}

/// The places of a queue's three parts are written in halves to the registers from
/// 0x80, 0x90 and 0xa0 on, and are the numbers that the halves make up. Writing
/// them leaves every other queue, and the other parts, as they are.
pub proof fn law_queue_places(t: TransportModel, low: u32, high: u32, other: int)
    requires
        t.valid(),
        0 <= other < 8,
    ensures
        ({
            let set = |base: u32|
                t.written(base, low, AccessWidth::Word).written(
                    (base + 4) as u32,
                    high,
                    AccessWidth::Word,
                );
            let place = low + 0x1_0000_0000 * high;
            let before = t.queues[t.queue_sel as int];
            &&& set(0x80).queues[t.queue_sel as int] == (VirtQueue { desc: place as u64, ..before })
            &&& set(0x90).queues[t.queue_sel as int] == (VirtQueue {
                avail: place as u64,
                ..before
            })
            &&& set(0xa0).queues[t.queue_sel as int] == (VirtQueue { used: place as u64, ..before })
            &&& other != t.queue_sel ==> {
                &&& set(0x80).queues[other] == t.queues[other]
                &&& set(0x90).queues[other] == t.queues[other]
                &&& set(0xa0).queues[other] == t.queues[other]
            }
        }),
{
    let queue = t.queues[t.queue_sel as int];
    lemma_joined(queue.desc, low, high);
    lemma_joined(queue.avail, low, high);
    lemma_joined(queue.used, low, high);
}

proof fn lemma_joined(value: u64, low: u32, high: u32)
    ensures
        bytes::with_high_half(bytes::with_low_half(value, low), high) == low + 0x1_0000_0000 * high,
{
    let first = bytes::with_low_half(value, low);
    bytes::law_halves(value, low);
    bytes::law_halves(first, high);
}

/// A queue is picked by its number, takes a size that is a power of two and no more
/// than its limit, and is made ready by the lowest bit.
pub proof fn law_queue_setup(t: TransportModel, value: u32)
    requires
        t.valid(),
    ensures
        ({
            let word = AccessWidth::Word;
            let queue = t.queues[t.queue_sel as int];
            &&& value < 8 ==> t.written(0x30, value, word).queue_sel == value
            &&& value >= 8 ==> t.written(0x30, value, word) == t
            &&& t.register(0x34, word) == queue.max_size
            &&& virtio::power_of_two(value as nat) && value <= queue.max_size ==> t.written(
                0x38,
                value,
                word,
            ).register(0x38, word) == value
            &&& !(virtio::power_of_two(value as nat) && value <= queue.max_size) ==> t.written(
                0x38,
                value,
                word,
            ) == t
            &&& t.written(0x44, value, word).register(0x44, word) == value % 2
        }),
{
}

/// The sixteen bytes of a descriptor, for a driver that writes them field by
/// field: an address of eight bytes, a length of four, flags of two, and the number
/// of the next one in two.
pub open spec fn describes(
    m: MemoryModel,
    queue: VirtQueue,
    index: u16,
    fields: (Seq<u8>, Seq<u8>, Seq<u8>, Seq<u8>),
) -> bool {
    let base = queue.desc + 16 * index;
    &&& base + 16 <= u64::MAX
    &&& fields.0.len() == 8 && says(m, base as u64, fields.0)
    &&& fields.1.len() == 4 && says(m, (base + 8) as u64, fields.1)
    &&& fields.2.len() == 2 && says(m, (base + 12) as u64, fields.2)
    &&& fields.3.len() == 2 && says(m, (base + 14) as u64, fields.3)
}

proof fn lemma_descriptor(
    m: MemoryModel,
    queue: VirtQueue,
    index: u16,
    fields: (Seq<u8>, Seq<u8>, Seq<u8>, Seq<u8>),
)
    requires
        describes(m, queue, index, fields),
    ensures
        ({
            let d = virtio::descriptor_at(m, queue, index);
            &&& d is Ok
            &&& d->Ok_0.address == bytes::u64_at(fields.0, 0)
            &&& d->Ok_0.len == bytes::u32_at(fields.1, 0)
            &&& d->Ok_0.flags == bytes::u16_at(fields.2, 0)
            &&& d->Ok_0.next == bytes::u16_at(fields.3, 0)
            &&& (d->Ok_0.flags & 1 == 0) == (d->Ok_0.flags % 2 == 0)
            &&& (d->Ok_0.flags & 2 != 0) == (d->Ok_0.flags as int / 2 % 2 == 1)
            &&& (d->Ok_0.flags & 4 != 0) == (d->Ok_0.flags as int / 4 % 2 == 1)
        }),
{
    bytes::lemma_numbers_at(fields.0, 0);
    bytes::lemma_numbers_at(fields.1, 0);
    bytes::lemma_numbers_at(fields.2, 0);
    bytes::lemma_numbers_at(fields.3, 0);
    assert(fields.0.subrange(0, 8) =~= fields.0);
    assert(fields.1.subrange(0, 4) =~= fields.1);
    assert(fields.2.subrange(0, 2) =~= fields.2);
    assert(fields.3.subrange(0, 2) =~= fields.3);
    let f = virtio::descriptor_at(m, queue, index)->Ok_0.flags;
    crate::registers::lemma_bits(0, 0, 0, f);
}

/// A descriptor adds its bytes to a chain: to what the device reads, or, where bit 1
/// of its flags is set, to what the device writes. Bit 0 says that another one
/// follows, whose number stands in the descriptor. Bit 2 is refused, and so is a
/// part to read behind a part to write, and a part that is not in memory.
pub proof fn law_descriptor(
    m: MemoryModel,
    queue: VirtQueue,
    steps: nat,
    index: u16,
    so_far: ChainModel,
    writing: bool,
    fields: (Seq<u8>, Seq<u8>, Seq<u8>, Seq<u8>),
)
    requires
        steps > 0,
        index < queue.size,
        describes(m, queue, index, fields),
    ensures
        ({
            let address = bytes::u64_at(fields.0, 0);
            let len = bytes::u32_at(fields.1, 0);
            let flags = bytes::u16_at(fields.2, 0);
            let next = bytes::u16_at(fields.3, 0);
            let out = flags / 2 % 2 == 1;
            let done = virtio::chain_from(m, queue, steps, index, so_far, writing);
            let grown = ChainModel {
                head: so_far.head,
                readable: (so_far.readable + if out {
                    0
                } else {
                    len
                }) as u32,
                writable: (so_far.writable + if out {
                    len
                } else {
                    0
                }) as u32,
                segments: so_far.segments.push(
                    Segment { address: address as u64, len: len as u32, writable: out },
                ),
            };
            let fits = len + (if out {
                so_far.writable
            } else {
                so_far.readable
            }) <= u32::MAX && (len == 0 || address + len <= u64::MAX);
            let there = len == 0 || m.resolve(address as u64, len as nat, out) is Ok;
            if flags / 4 % 2 == 1 {
                done.0 == Err::<ChainModel, _>(QueueError::UnsupportedIndirect)
            } else if !out && writing {
                done.0 == Err::<ChainModel, _>(QueueError::DirectionChange)
            } else if !fits {
                done.0 == Err::<ChainModel, _>(QueueError::Overflow)
            } else if !there {
                done.0 == Err::<ChainModel, _>(QueueError::Memory)
            } else if flags % 2 == 0 {
                done.0 == Ok::<_, QueueError>(grown)
            } else {
                let touched = if len == 0 {
                    m
                } else {
                    m.accessed(address as u64, len as nat, out)
                };
                done == virtio::chain_from(
                    touched,
                    queue,
                    (steps - 1) as nat,
                    next as u16,
                    grown,
                    writing || out,
                )
            }
        }),
{
    lemma_descriptor(m, queue, index, fields);
}

/// A chain that is given back stands in the ring behind the count of those given
/// back before, as its number and the bytes written to it, of four bytes each; the
/// count, two bytes from the start of the ring, goes up by one; and the lowest bit
/// of the interrupt status is set.
pub proof fn law_given_back(
    t: TransportModel,
    m: MemoryModel,
    index: u16,
    chain: ChainModel,
    written: u32,
    count: Seq<u8>,
)
    requires
        m.valid(),
        t.valid(),
        index < 8,
        t.completes(m, index, chain, written).0 is Ok,
        count.len() == 2,
        says(m, (t.queues[index as int].used + 2) as u64, count),
        ({
            let queue = t.queues[index as int];
            let place = queue.used + 4 + 8 * (bytes::u16_at(count, 0) % queue.size as int);
            &&& apart(m, (place + 4) as u64, 4, place as u64, 4)
            &&& apart(m, (queue.used + 2) as u64, 2, place as u64, 4)
            &&& apart(m, (queue.used + 2) as u64, 2, (place + 4) as u64, 4)
        }),
    ensures
        ({
            let queue = t.queues[index as int];
            let place = queue.used + 4 + 8 * (bytes::u16_at(count, 0) % queue.size as int);
            let (_, u, n) = t.completes(m, index, chain, written);
            let bytes_at = |a: int, len: nat| n.read_bytes(a as u64, len);
            &&& bytes_at(place, 4) matches Ok(head) && bytes::u32_at(head, 0) == chain.head
            &&& bytes_at(place + 4, 4) matches Ok(len) && bytes::u32_at(len, 0) == written
            &&& bytes_at(queue.used + 2, 2) matches Ok(next) && bytes::u16_at(next, 0) == (
            bytes::u16_at(count, 0) + 1) % 0x1_0000
            &&& u.interrupt_status % 2 == 1
            &&& u.queues == t.queues
        }),
{
    let queue = t.queues[index as int];
    bytes::lemma_numbers_at(count, 0);
    assert(count.subrange(0, 2) =~= count);
    let used = bytes::u16_at(count, 0);
    assert(virtio::ring_value(m, queue.used, 2, AccessWidth::HalfWord) == Ok::<u64, QueueError>(
        used as u64,
    ));
    let slot = used % queue.size as int;
    let element = (queue.used + 4 + slot * 8) as u64;
    let next = (used as u16).wrapping_add(1);
    let a = bytes::le_bytes(chain.head as nat, 4);
    let b = bytes::le_bytes(written as nat, 4);
    let c = bytes::le_bytes(next as nat, 2);
    bytes::lemma_le_bytes_len(chain.head as nat, 4);
    bytes::lemma_le_bytes_len(written as nat, 4);
    bytes::lemma_le_bytes_len(next as nat, 2);
    bytes::lemma_pow256();
    assert(a.subrange(0, 4) =~= a && b.subrange(0, 4) =~= b && c.subrange(0, 2) =~= c);
    bytes::lemma_written_number(a, 0, chain.head as nat, 4);
    bytes::lemma_written_number(b, 0, written as nat, 4);
    bytes::lemma_written_number(c, 0, next as nat, 2);
    let n = m.write_bytes(element, a);
    let second = (element + 4) as u64;
    let o = n.write_bytes(second, b);
    let top = (queue.used + 2) as u64;
    let p = o.write_bytes(top, c);
    crate::disk::lemma_write(m, element, a, element, 0);
    crate::disk::lemma_write(n, second, b, element, 4);
    crate::disk::lemma_write(o, top, c, element, 4);
    crate::disk::lemma_write(o, top, c, second, 4);
    let status = t.interrupt_status;
    crate::registers::lemma_bits(status, 0, 0, 0);
}

} // verus!
