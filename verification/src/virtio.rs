//! Shared modern VirtIO MMIO transport and split-ring queue handling.

use vstd::prelude::*;
use crate::bytes;
use crate::guest_memory::MemoryAccess;
use crate::memory::{AccessWidth, GuestAddress, MemoryError, MemoryModel};

verus! {

pub const MMIO_SIZE: u64 = 0x1000;
pub const MAX_QUEUES: usize = 8;
pub const VERSION_1: u64 = 0x1_0000_0000;
pub const MAGIC_VALUE: u32 = 0x7472_6976;
pub const VENDOR_ID: u32 = 0x554d_4551;
pub const DESC_F_NEXT: u16 = 1;
pub const DESC_F_WRITE: u16 = 2;
pub const DESC_F_INDIRECT: u16 = 4;
pub const STATUS_FEATURES_OK: u32 = 8;

#[derive(Clone, Copy, Debug, PartialEq, Eq, Structural)]
pub struct QueueIndex(pub u16);

#[derive(Clone, Copy, Debug, PartialEq, Eq, Structural)]
pub struct DescriptorIndex(pub u16);

#[derive(Clone, Copy, Debug, PartialEq, Eq, Structural)]
pub enum QueueError {
    NotReady,
    InvalidQueue,
    InvalidSize,
    InvalidDescriptor,
    DescriptorLoop,
    UnsupportedIndirect,
    DirectionChange,
    TooShort,
    Overflow,
    Misaligned,
    Memory,
}

impl From<MemoryError> for QueueError {
    fn from(_error: MemoryError) -> (r: Self) {
        QueueError::Memory
    }
}

impl vstd::std_specs::convert::FromSpecImpl<MemoryError> for QueueError {
    open spec fn obeys_from_spec() -> bool {
        true
    }

    open spec fn from_spec(_error: MemoryError) -> Self {
        QueueError::Memory
    }
}

#[derive(Clone, Copy, Debug, PartialEq, Eq, Structural)]
pub struct VirtQueue {
    pub max_size: u16,
    pub size: u16,
    pub ready: bool,
    pub last_avail: u16,
    pub desc: u64,
    pub avail: u64,
    pub used: u64,
}

/// A stretch of guest memory in a descriptor chain.
#[derive(Clone, Copy, Debug, PartialEq, Eq, Structural)]
pub struct Segment {
    pub address: u64,
    pub len: u32,
    pub writable: bool,
}

#[derive(Clone, Debug, PartialEq, Eq)]
pub struct DescriptorChain {
    pub head: DescriptorIndex,
    pub readable: u32,
    pub writable: u32,
    pub segments: Vec<Segment>,
}

/// The model of a descriptor chain.
#[verifier::ext_equal]
pub struct ChainModel {
    pub head: u16,
    pub readable: u32,
    pub writable: u32,
    pub segments: Seq<Segment>,
}

impl View for DescriptorChain {
    type V = ChainModel;

    open spec fn view(&self) -> ChainModel {
        ChainModel {
            head: self.head.0,
            readable: self.readable,
            writable: self.writable,
            segments: self.segments@,
        }
    }
}

#[derive(Clone, Debug)]
pub struct VirtioTransport {
    pub device_id: u32,
    pub device_features: u64,
    pub driver_features: u64,
    pub device_features_sel: u32,
    pub driver_features_sel: u32,
    pub queue_sel: u16,
    pub queues: [VirtQueue; 8],
    pub status: u32,
    pub interrupt_status: u32,
    pub config_generation: u32,
}

/// The model of a transport.
#[verifier::ext_equal]
pub struct TransportModel {
    pub device_id: u32,
    pub device_features: u64,
    pub driver_features: u64,
    pub device_features_sel: u32,
    pub driver_features_sel: u32,
    pub queue_sel: u16,
    pub queues: Seq<VirtQueue>,
    pub status: u32,
    pub interrupt_status: u32,
    pub config_generation: u32,
}

impl View for VirtioTransport {
    type V = TransportModel;

    open spec fn view(&self) -> TransportModel {
        TransportModel {
            device_id: self.device_id,
            device_features: self.device_features,
            driver_features: self.driver_features,
            device_features_sel: self.device_features_sel,
            driver_features_sel: self.driver_features_sel,
            queue_sel: self.queue_sel,
            queues: self.queues@,
            status: self.status,
            interrupt_status: self.interrupt_status,
            config_generation: self.config_generation,
        }
    }
}

/// Whether `n` is a power of two.
pub open spec fn power_of_two(n: nat) -> bool
    decreases n,
{
    n == 1 || (n > 1 && n % 2 == 0 && power_of_two(n / 2))
}

pub fn is_power_of_two(n: u32) -> (r: bool)
    ensures
        r == power_of_two(n as nat),
{
    let mut rest: u32 = n;
    while rest > 1 && rest % 2 == 0
        invariant
            power_of_two(n as nat) == power_of_two(rest as nat),
        decreases rest,
    {
        rest = rest / 2;
    }
    rest == 1
}

/// A queue without anything that a driver has set up.
pub open spec fn reset_queue(queue: VirtQueue) -> VirtQueue {
    VirtQueue {
        max_size: queue.max_size,
        size: queue.max_size,
        ready: false,
        last_avail: 0,
        desc: 0,
        avail: 0,
        used: 0,
    }
}

/// What is wrong with a queue, if anything.
pub open spec fn queue_fault(queue: VirtQueue) -> Option<QueueError> {
    if !power_of_two(queue.size as nat) || queue.size > queue.max_size {
        Some(QueueError::InvalidSize)
    } else if queue.desc % 16 != 0 || queue.avail % 2 != 0 || queue.used % 4 != 0 {
        Some(QueueError::Misaligned)
    } else {
        None
    }
}

fn validate_queue(queue: &VirtQueue) -> (r: Result<(), QueueError>)
    ensures
        r == (match queue_fault(*queue) {
            Some(error) => Err(error),
            None => Ok::<(), QueueError>(()),
        }),
        r is Ok ==> queue.size > 0,
{
    if !is_power_of_two(queue.size as u32) || queue.size > queue.max_size {
        Err(QueueError::InvalidSize)
    } else if queue.desc % 16 != 0 || queue.avail % 2 != 0 || queue.used % 4 != 0 {
        Err(QueueError::Misaligned)
    } else {
        Ok(())
    }
}

pub open spec fn selected_half(value: u64, selector: u32) -> u32 {
    match selector {
        0 => bytes::low_half(value),
        1 => bytes::high_half(value),
        _ => 0,
    }
}

fn select_u64(value: u64, selector: u32) -> (r: u32)
    ensures
        r == selected_half(value, selector),
{
    match selector {
        0 => bytes::low_u32(value),
        1 => bytes::high_u32(value),
        _ => 0,
    }
}

pub open spec fn with_selected_half(value: u64, selector: u32, half: u32) -> u64 {
    match selector {
        0 => bytes::with_low_half(value, half),
        1 => bytes::with_high_half(value, half),
        _ => value,
    }
}

fn set_selected_u64(value: u64, selector: u32, half: u32) -> (r: u64)
    ensures
        r == with_selected_half(value, selector, half),
{
    match selector {
        0 => bytes::set_low(value, half),
        1 => bytes::set_high(value, half),
        _ => value,
    }
}

/// `base + offset`, if that is an address.
pub open spec fn address_sum(base: u64, offset: int) -> Result<u64, QueueError> {
    if base + offset <= u64::MAX {
        Ok((base + offset) as u64)
    } else {
        Err(QueueError::Overflow)
    }
}

fn checked_add(base: u64, offset: u64) -> (r: Result<u64, QueueError>)
    ensures
        r == address_sum(base, offset as int),
{
    match base.checked_add(offset) {
        Some(sum) => Ok(sum),
        None => Err(QueueError::Overflow),
    }
}

/// A value that a device reads from guest memory at an offset from a base.
pub open spec fn ring_value(m: MemoryModel, base: u64, offset: int, width: AccessWidth) -> Result<
    u64,
    QueueError,
> {
    match address_sum(base, offset) {
        Err(error) => Err(error),
        Ok(address) => match m.read_value(address, width) {
            Ok(value) => Ok(value),
            Err(_) => Err(QueueError::Memory),
        },
    }
}

fn read_ring<M: MemoryAccess>(memory: &mut M, base: u64, offset: u64, width: AccessWidth) -> (r:
    Result<u64, QueueError>)
    requires
        old(memory).model().valid(),
    ensures
        r == ring_value(old(memory).model(), base, offset as int, width),
        final(memory).model() == old(memory).model(),
        r matches Ok(value) ==> value < bytes::pow256(width.size()),
{
    let address: u64 = match checked_add(base, offset) {
        Ok(address) => address,
        Err(error) => {
            return Err(error);
        },
    };
    let ghost before = memory.model();
    match memory.read(GuestAddress(address), width) {
        Ok(value) => {
            proof {
                let data = before.bytes_at(address, width.size());
                crate::memory::lemma_resolve_bound(before, address, width.size(), false);
                bytes::lemma_le_value_bound(data);
                bytes::lemma_pow256();
            }
            Ok(value)
        },
        Err(_) => Err(QueueError::Memory),
    }
}

/// The result of a write of a value, and memory after it.
pub open spec fn ring_write(
    m: MemoryModel,
    base: u64,
    offset: int,
    width: AccessWidth,
    value: u64,
) -> (Result<(), QueueError>, MemoryModel) {
    match address_sum(base, offset) {
        Err(error) => (Err(error), m),
        Ok(address) => if m.resolve(address, width.size(), true) is Ok {
            (Ok(()), m.write_value(address, width, value))
        } else {
            (Err(QueueError::Memory), m)
        },
    }
}

fn write_ring<M: MemoryAccess>(
    memory: &mut M,
    base: u64,
    offset: u64,
    width: AccessWidth,
    value: u64,
) -> (r: Result<(), QueueError>)
    requires
        old(memory).model().valid(),
    ensures
        (r, final(memory).model()) == ring_write(
            old(memory).model(),
            base,
            offset as int,
            width,
            value,
        ),
        final(memory).model().follows(old(memory).model()),
{
    match checked_add(base, offset) {
        Ok(address) => {
            proof {
                bytes::lemma_le_bytes_len(value as nat, width.size());
            }
            match memory.write(GuestAddress(address), width, value) {
                Ok(()) => Ok(()),
                Err(_) => Err(QueueError::Memory),
            }
        },
        Err(error) => Err(error),
    }
}

/// A descriptor of a ring.
pub struct DescriptorModel {
    pub address: u64,
    pub len: u32,
    pub flags: u16,
    pub next: u16,
}

/// The descriptor at an index, read field by field.
pub open spec fn descriptor_at(m: MemoryModel, queue: VirtQueue, index: u16) -> Result<
    DescriptorModel,
    QueueError,
> {
    match address_sum(queue.desc, index * 16) {
        Err(error) => Err(error),
        Ok(base) => match ring_value(m, base, 0, AccessWidth::DoubleWord) {
            Err(error) => Err(error),
            Ok(address) => match ring_value(m, base, 8, AccessWidth::Word) {
                Err(error) => Err(error),
                Ok(len) => match ring_value(m, base, 12, AccessWidth::HalfWord) {
                    Err(error) => Err(error),
                    Ok(flags) => match ring_value(m, base, 14, AccessWidth::HalfWord) {
                        Err(error) => Err(error),
                        Ok(next) => Ok(
                            DescriptorModel {
                                address,
                                len: len as u32,
                                flags: flags as u16,
                                next: next as u16,
                            },
                        ),
                    },
                },
            },
        },
    }
}

/// Follows a chain from a descriptor on. Readable segments come before writable
/// ones, and at most `steps` descriptors are left. A writable segment counts as
/// written once it has been checked.
pub open spec fn chain_from(
    m: MemoryModel,
    queue: VirtQueue,
    steps: nat,
    index: u16,
    so_far: ChainModel,
    writing: bool,
) -> (Result<ChainModel, QueueError>, MemoryModel)
    decreases steps,
{
    if steps == 0 {
        (Err(QueueError::DescriptorLoop), m)
    } else if index >= queue.size {
        (Err(QueueError::InvalidDescriptor), m)
    } else {
        match descriptor_at(m, queue, index) {
            Err(error) => (Err(error), m),
            Ok(descriptor) => {
                let writable = descriptor.flags & DESC_F_WRITE != 0;
                let total = if writable {
                    so_far.writable + descriptor.len
                } else {
                    so_far.readable + descriptor.len
                };
                let n = m.accessed(descriptor.address, descriptor.len as nat, writable);
                if descriptor.flags & DESC_F_INDIRECT != 0 {
                    (Err(QueueError::UnsupportedIndirect), m)
                } else if !writable && writing {
                    (Err(QueueError::DirectionChange), m)
                } else if total > u32::MAX {
                    (Err(QueueError::Overflow), m)
                } else if descriptor.len != 0 && descriptor.address + descriptor.len > u64::MAX {
                    (Err(QueueError::Overflow), m)
                } else if descriptor.len != 0 && m.resolve(
                    descriptor.address,
                    descriptor.len as nat,
                    writable,
                ) is Err {
                    (Err(QueueError::Memory), n)
                } else {
                    let grown = ChainModel {
                        head: so_far.head,
                        readable: if writable {
                            so_far.readable
                        } else {
                            total as u32
                        },
                        writable: if writable {
                            total as u32
                        } else {
                            so_far.writable
                        },
                        segments: so_far.segments.push(
                            Segment { address: descriptor.address, len: descriptor.len, writable },
                        ),
                    };
                    let o = if descriptor.len != 0 {
                        n
                    } else {
                        m
                    };
                    if descriptor.flags & DESC_F_NEXT == 0 {
                        (Ok(grown), o)
                    } else {
                        chain_from(
                            o,
                            queue,
                            (steps - 1) as nat,
                            descriptor.next,
                            grown,
                            writing || writable,
                        )
                    }
                }
            },
        }
    }
}

pub open spec fn empty_chain(head: u16) -> ChainModel {
    ChainModel { head, readable: 0, writable: 0, segments: Seq::empty() }
}

struct Descriptor {
    address: u64,
    len: u32,
    flags: u16,
    next: u16,
}

fn read_descriptor<M: MemoryAccess>(memory: &mut M, queue: &VirtQueue, index: u16) -> (r: Result<
    Descriptor,
    QueueError,
>)
    requires
        old(memory).model().valid(),
    ensures
        match r {
            Ok(d) => descriptor_at(old(memory).model(), *queue, index) == Ok::<_, QueueError>(
                DescriptorModel { address: d.address, len: d.len, flags: d.flags, next: d.next },
            ),
            Err(error) => descriptor_at(old(memory).model(), *queue, index) == Err::<
                DescriptorModel,
                _,
            >(error),
        },
        final(memory).model() == old(memory).model(),
{
    let base: u64 = match checked_add(queue.desc, index as u64 * 16) {
        Ok(base) => base,
        Err(error) => {
            return Err(error);
        },
    };
    let address: u64 = match read_ring(memory, base, 0, AccessWidth::DoubleWord) {
        Ok(value) => value,
        Err(error) => {
            return Err(error);
        },
    };
    let len: u32 = match read_ring(memory, base, 8, AccessWidth::Word) {
        Ok(value) => value as u32,
        Err(error) => {
            return Err(error);
        },
    };
    let flags: u16 = match read_ring(memory, base, 12, AccessWidth::HalfWord) {
        Ok(value) => value as u16,
        Err(error) => {
            return Err(error);
        },
    };
    let next: u16 = match read_ring(memory, base, 14, AccessWidth::HalfWord) {
        Ok(value) => value as u16,
        Err(error) => {
            return Err(error);
        },
    };
    Ok(Descriptor { address, len, flags, next })
}

#[verifier::rlimit(40)]
fn read_chain<M: MemoryAccess>(memory: &mut M, queue: &VirtQueue, head: DescriptorIndex) -> (r:
    Result<DescriptorChain, QueueError>)
    requires
        old(memory).model().valid(),
    ensures
        ({
            let whole = chain_from(
                old(memory).model(),
                *queue,
                queue.size as nat,
                head.0,
                empty_chain(head.0),
                false,
            );
            &&& match r {
                Ok(chain) => whole.0 == Ok::<_, QueueError>(chain@),
                Err(error) => whole.0 == Err::<ChainModel, _>(error),
            }
            &&& final(memory).model() == whole.1
        }),
        final(memory).model().follows(old(memory).model()),
{
    let mut segments: Vec<Segment> = Vec::new();
    let mut readable: u32 = 0;
    let mut writable: u32 = 0;
    let mut writing: bool = false;
    let mut index: u16 = head.0;
    let mut steps: u16 = queue.size;
    let ghost whole = chain_from(
        memory.model(),
        *queue,
        queue.size as nat,
        head.0,
        empty_chain(head.0),
        false,
    );
    assert(segments@ =~= Seq::empty());
    while steps > 0
        invariant
            memory.model().follows(old(memory).model()),
            whole == chain_from(
                old(memory).model(),
                *queue,
                queue.size as nat,
                head.0,
                empty_chain(head.0),
                false,
            ),
            whole == chain_from(
                memory.model(),
                *queue,
                steps as nat,
                index,
                ChainModel { head: head.0, readable, writable, segments: segments@ },
                writing,
            ),
        decreases steps,
    {
        if index >= queue.size {
            return Err(QueueError::InvalidDescriptor);
        }
        let descriptor: Descriptor = match read_descriptor(memory, queue, index) {
            Ok(descriptor) => descriptor,
            Err(error) => {
                return Err(error);
            },
        };
        if descriptor.flags & DESC_F_INDIRECT != 0 {
            return Err(QueueError::UnsupportedIndirect);
        }
        let is_writable: bool = descriptor.flags & DESC_F_WRITE != 0;
        if !is_writable && writing {
            return Err(QueueError::DirectionChange);
        }
        let before: u32 = if is_writable {
            writable
        } else {
            readable
        };
        let total: u32 = match before.checked_add(descriptor.len) {
            Some(total) => total,
            None => {
                return Err(QueueError::Overflow);
            },
        };
        if descriptor.len != 0 {
            match checked_add(descriptor.address, descriptor.len as u64) {
                Ok(_) => {},
                Err(error) => {
                    return Err(error);
                },
            }
            match memory.validate_ram(
                GuestAddress(descriptor.address),
                descriptor.len as usize,
                is_writable,
            ) {
                Ok(()) => {},
                Err(_) => {
                    return Err(QueueError::Memory);
                },
            }
        }
        if is_writable {
            writable = total;
        } else {
            readable = total;
        }
        writing = writing || is_writable;
        segments.push(
            Segment {
                address: descriptor.address,
                len: descriptor.len,
                writable: is_writable,
            },
        );
        if descriptor.flags & DESC_F_NEXT == 0 {
            return Ok(DescriptorChain { head, readable, writable, segments });
        }
        index = descriptor.next;
        steps = steps - 1;
    }
    Err(QueueError::DescriptorLoop)
}

/// Copies out of the readable segments from `i` on into `dest`, of which
/// `copied` bytes are filled, after skipping `skip` bytes.
pub open spec fn gather(
    m: MemoryModel,
    segments: Seq<Segment>,
    i: nat,
    skip: u32,
    dest: Seq<u8>,
    copied: nat,
) -> (Result<(), QueueError>, Seq<u8>)
    decreases segments.len() - i,
{
    if i >= segments.len() {
        (
            if copied == dest.len() {
                Ok(())
            } else {
                Err(QueueError::TooShort)
            },
            dest,
        )
    } else {
        let segment = segments[i as int];
        if segment.writable {
            gather(m, segments, i + 1, skip, dest, copied)
        } else if skip >= segment.len {
            gather(m, segments, i + 1, (skip - segment.len) as u32, dest, copied)
        } else {
            let available = (segment.len - skip) as nat;
            let rest = (dest.len() - copied) as nat;
            let length = if available < rest {
                available
            } else {
                rest
            };
            match address_sum(segment.address, skip as int) {
                Err(error) => (Err(error), dest),
                Ok(address) => match m.read_bytes(address, length) {
                    Err(_) => (Err(QueueError::Memory), dest),
                    Ok(data) => {
                        let filled = bytes::spliced(dest, copied as int, data);
                        if copied + length == dest.len() {
                            (Ok(()), filled)
                        } else {
                            gather(m, segments, i + 1, 0, filled, copied + length)
                        }
                    },
                },
            }
        }
    }
}

/// A copy leaves the length of its destination.
pub proof fn lemma_gather_len(
    m: MemoryModel,
    segments: Seq<Segment>,
    i: nat,
    skip: u32,
    dest: Seq<u8>,
    copied: nat,
)
    ensures
        gather(m, segments, i, skip, dest, copied).1.len() == dest.len(),
    decreases segments.len() - i,
{
    if i < segments.len() {
        let segment = segments[i as int];
        if segment.writable {
            lemma_gather_len(m, segments, i + 1, skip, dest, copied);
        } else if skip >= segment.len {
            lemma_gather_len(m, segments, i + 1, (skip - segment.len) as u32, dest, copied);
        } else {
            let available = (segment.len - skip) as nat;
            let rest = (dest.len() - copied) as nat;
            let length = if available < rest {
                available
            } else {
                rest
            };
            match address_sum(segment.address, skip as int) {
                Err(_) => {},
                Ok(address) => match m.read_bytes(address, length) {
                    Err(_) => {},
                    Ok(data) => {
                        lemma_gather_len(
                            m,
                            segments,
                            i + 1,
                            0,
                            bytes::spliced(dest, copied as int, data),
                            copied + length,
                        );
                    },
                },
            }
        }
    }
}

/// Copies `data`, of which `copied` bytes are done, into the writable segments
/// from `i` on, after skipping `skip` bytes.
pub open spec fn scatter(
    m: MemoryModel,
    segments: Seq<Segment>,
    i: nat,
    skip: u32,
    data: Seq<u8>,
    copied: nat,
) -> (Result<(), QueueError>, MemoryModel)
    decreases segments.len() - i,
{
    if i >= segments.len() {
        (
            if copied == data.len() {
                Ok(())
            } else {
                Err(QueueError::TooShort)
            },
            m,
        )
    } else {
        let segment = segments[i as int];
        if !segment.writable {
            scatter(m, segments, i + 1, skip, data, copied)
        } else if skip >= segment.len {
            scatter(m, segments, i + 1, (skip - segment.len) as u32, data, copied)
        } else {
            let available = (segment.len - skip) as nat;
            let rest = (data.len() - copied) as nat;
            let length = if available < rest {
                available
            } else {
                rest
            };
            match address_sum(segment.address, skip as int) {
                Err(error) => (Err(error), m),
                Ok(address) => {
                    let piece = data.subrange(copied as int, (copied + length) as int);
                    let n = m.write_bytes(address, piece);
                    if m.resolve(address, length, true) is Err {
                        (Err(QueueError::Memory), n)
                    } else if copied + length == data.len() {
                        (Ok(()), n)
                    } else {
                        scatter(n, segments, i + 1, 0, data, copied + length)
                    }
                },
            }
        }
    }
}

/// Whether a range of `len` bytes from `offset` lies in `capacity`.
pub open spec fn range_fault(offset: u32, len: nat, capacity: u32) -> Option<QueueError> {
    if len > u32::MAX || offset + len > u32::MAX {
        Some(QueueError::Overflow)
    } else if offset + len > capacity {
        Some(QueueError::TooShort)
    } else {
        None
    }
}

fn check_range(offset: u32, len: usize, capacity: u32) -> (r: Result<(), QueueError>)
    ensures
        r == (match range_fault(offset, len as nat, capacity) {
            Some(error) => Err(error),
            None => Ok::<(), QueueError>(()),
        }),
{
    if len as u64 > 0xffff_ffff || offset as u64 + len as u64 > 0xffff_ffff {
        Err(QueueError::Overflow)
    } else if offset as u64 + len as u64 > capacity as u64 {
        Err(QueueError::TooShort)
    } else {
        Ok(())
    }
}

impl ChainModel {
    /// The result of reading a range of the readable part into a buffer.
    pub open spec fn reads(self, m: MemoryModel, offset: u32, dest: Seq<u8>) -> (
        Result<(), QueueError>,
        Seq<u8>,
    ) {
        match range_fault(offset, dest.len(), self.readable) {
            Some(error) => (Err(error), dest),
            None => gather(m, self.segments, 0, offset, dest, 0),
        }
    }

    /// The result of writing bytes to a range of the writable part.
    pub open spec fn writes(self, m: MemoryModel, offset: u32, data: Seq<u8>) -> (
        Result<(), QueueError>,
        MemoryModel,
    ) {
        match range_fault(offset, data.len(), self.writable) {
            Some(error) => (Err(error), m),
            None => scatter(m, self.segments, 0, offset, data, 0),
        }
    }
}

fn copy_chain<M: MemoryAccess>(
    memory: &mut M,
    chain: &DescriptorChain,
    offset: u32,
    destination: &mut [u8],
) -> (r: Result<(), QueueError>)
    requires
        old(memory).model().valid(),
    ensures
        (r, final(destination)@) == chain@.reads(old(memory).model(), offset, old(destination)@),
        final(memory).model() == old(memory).model(),
{
    match check_range(offset, destination.len(), chain.readable) {
        Ok(()) => {},
        Err(error) => {
            return Err(error);
        },
    }
    let ghost whole = chain@.reads(memory.model(), offset, destination@);
    let mut skip: u32 = offset;
    let mut copied: usize = 0;
    let mut i: usize = 0;
    while i < chain.segments.len()
        invariant
            i <= chain.segments.len(),
            copied <= destination@.len(),
            memory.model().follows(old(memory).model()),
            memory.model() == old(memory).model(),
            whole == chain@.reads(old(memory).model(), offset, old(destination)@),
            whole == gather(
                memory.model(),
                chain@.segments,
                i as nat,
                skip,
                destination@,
                copied as nat,
            ),
        decreases chain.segments.len() - i,
    {
        let segment: Segment = chain.segments[i];
        if segment.writable {
        } else if skip >= segment.len {
            skip = skip - segment.len;
        } else {
            let available: usize = (segment.len - skip) as usize;
            let rest: usize = destination.len() - copied;
            let length: usize = if available < rest {
                available
            } else {
                rest
            };
            let address: u64 = match checked_add(segment.address, skip as u64) {
                Ok(address) => address,
                Err(error) => {
                    return Err(error);
                },
            };
            match memory.read_bytes(GuestAddress(address), length) {
                Ok(data) => {
                    proof {
                        crate::memory::lemma_resolve_bound(
                            memory.model(),
                            address,
                            length as nat,
                            false,
                        );
                    }
                    bytes::splice_slice(destination, copied, data.as_slice());
                },
                Err(_) => {
                    return Err(QueueError::Memory);
                },
            }
            copied = copied + length;
            skip = 0;
            if copied == destination.len() {
                return Ok(());
            }
        }
        i = i + 1;
    }
    if copied == destination.len() {
        Ok(())
    } else {
        Err(QueueError::TooShort)
    }
}

fn write_chain_bytes<M: MemoryAccess>(
    memory: &mut M,
    chain: &DescriptorChain,
    offset: u32,
    data: &[u8],
) -> (r: Result<(), QueueError>)
    requires
        old(memory).model().valid(),
    ensures
        (r, final(memory).model()) == chain@.writes(old(memory).model(), offset, data@),
        final(memory).model().follows(old(memory).model()),
{
    match check_range(offset, data.len(), chain.writable) {
        Ok(()) => {},
        Err(error) => {
            return Err(error);
        },
    }
    let ghost whole = chain@.writes(memory.model(), offset, data@);
    let mut skip: u32 = offset;
    let mut copied: usize = 0;
    let mut i: usize = 0;
    while i < chain.segments.len()
        invariant
            i <= chain.segments.len(),
            copied <= data@.len(),
            memory.model().follows(old(memory).model()),
            whole == chain@.writes(old(memory).model(), offset, data@),
            whole == scatter(
                memory.model(),
                chain@.segments,
                i as nat,
                skip,
                data@,
                copied as nat,
            ),
        decreases chain.segments.len() - i,
    {
        let segment: Segment = chain.segments[i];
        if !segment.writable {
        } else if skip >= segment.len {
            skip = skip - segment.len;
        } else {
            let available: usize = (segment.len - skip) as usize;
            let rest: usize = data.len() - copied;
            let length: usize = if available < rest {
                available
            } else {
                rest
            };
            let address: u64 = match checked_add(segment.address, skip as u64) {
                Ok(address) => address,
                Err(error) => {
                    return Err(error);
                },
            };
            let piece: Vec<u8> = bytes::copy_range(data, copied, length);
            match memory.write_bytes(GuestAddress(address), piece.as_slice()) {
                Ok(()) => {},
                Err(_) => {
                    return Err(QueueError::Memory);
                },
            }
            copied = copied + length;
            skip = 0;
            if copied == data.len() {
                return Ok(());
            }
        }
        i = i + 1;
    }
    if copied == data.len() {
        Ok(())
    } else {
        Err(QueueError::TooShort)
    }
}

impl TransportModel {
    /// The queue selector always names a queue.
    pub open spec fn valid(self) -> bool {
        self.queue_sel < 8 && self.queues.len() == 8
    }

    pub open spec fn selected(self) -> VirtQueue {
        self.queues[self.queue_sel as int]
    }

    pub open spec fn with_selected(self, queue: VirtQueue) -> TransportModel {
        TransportModel { queues: self.queues.update(self.queue_sel as int, queue), ..self }
    }

    /// The transport after a reset; only what the device offers survives.
    pub open spec fn reset(self) -> TransportModel {
        TransportModel {
            driver_features: 0,
            device_features_sel: 0,
            driver_features_sel: 0,
            queue_sel: 0,
            status: 0,
            interrupt_status: 0,
            queues: Seq::new(self.queues.len(), |i: int| reset_queue(self.queues[i])),
            ..self
        }
    }

    pub open spec fn register(self, offset: u32, width: AccessWidth) -> u32 {
        let queue = self.selected();
        if !(width is Word) {
            0
        } else {
            match offset {
                0x000 => MAGIC_VALUE,
                0x004 => 2,
                0x008 => self.device_id,
                0x00c => VENDOR_ID,
                0x010 => selected_half(self.device_features, self.device_features_sel),
                0x014 => self.device_features_sel,
                0x020 => selected_half(self.driver_features, self.driver_features_sel),
                0x024 => self.driver_features_sel,
                0x030 => self.queue_sel as u32,
                0x034 => queue.max_size as u32,
                0x038 => queue.size as u32,
                0x044 => if queue.ready {
                    1
                } else {
                    0
                },
                0x060 => self.interrupt_status,
                0x070 => self.status,
                0x080 => bytes::low_half(queue.desc),
                0x084 => bytes::high_half(queue.desc),
                0x090 => bytes::low_half(queue.avail),
                0x094 => bytes::high_half(queue.avail),
                0x0a0 => bytes::low_half(queue.used),
                0x0a4 => bytes::high_half(queue.used),
                0x0fc => self.config_generation,
                _ => 0,
            }
        }
    }

    pub open spec fn written(self, offset: u32, value: u32, width: AccessWidth) -> TransportModel {
        let queue = self.selected();
        if !(width is Word) {
            self
        } else {
            match offset {
                0x014 => TransportModel { device_features_sel: value, ..self },
                0x020 => TransportModel {
                    driver_features: with_selected_half(
                        self.driver_features,
                        self.driver_features_sel,
                        value,
                    ),
                    ..self
                },
                0x024 => TransportModel { driver_features_sel: value, ..self },
                0x030 => if value < 8 {
                    TransportModel { queue_sel: value as u16, ..self }
                } else {
                    self
                },
                0x038 => if power_of_two(value as nat) && value <= queue.max_size {
                    self.with_selected(VirtQueue { size: value as u16, ..queue })
                } else {
                    self
                },
                0x044 => self.with_selected(VirtQueue { ready: value % 2 == 1, ..queue }),
                0x064 => TransportModel {
                    interrupt_status: self.interrupt_status & !value,
                    ..self
                },
                0x070 => if value == 0 {
                    self.reset()
                } else {
                    TransportModel {
                        status: if value & STATUS_FEATURES_OK != 0 && self.driver_features
                            & !self.device_features != 0 {
                            value & !STATUS_FEATURES_OK
                        } else {
                            value
                        },
                        ..self
                    }
                },
                0x080 => self.with_selected(
                    VirtQueue { desc: bytes::with_low_half(queue.desc, value), ..queue },
                ),
                0x084 => self.with_selected(
                    VirtQueue { desc: bytes::with_high_half(queue.desc, value), ..queue },
                ),
                0x090 => self.with_selected(
                    VirtQueue { avail: bytes::with_low_half(queue.avail, value), ..queue },
                ),
                0x094 => self.with_selected(
                    VirtQueue { avail: bytes::with_high_half(queue.avail, value), ..queue },
                ),
                0x0a0 => self.with_selected(
                    VirtQueue { used: bytes::with_low_half(queue.used, value), ..queue },
                ),
                0x0a4 => self.with_selected(
                    VirtQueue { used: bytes::with_high_half(queue.used, value), ..queue },
                ),
                _ => self,
            }
        }
    }

    /// Takes the next chain that the driver has made available. The queue
    /// moves on only when the chain is sound.
    pub open spec fn takes(self, m: MemoryModel, index: u16) -> (
        Result<Option<ChainModel>, QueueError>,
        TransportModel,
        MemoryModel,
    ) {
        let queue = self.queues[index as int];
        if index >= 8 {
            (Err(QueueError::InvalidQueue), self, m)
        } else if !queue.ready {
            (Err(QueueError::NotReady), self, m)
        } else {
            match queue_fault(queue) {
                Some(error) => (Err(error), self, m),
                None => match ring_value(m, queue.avail, 2, AccessWidth::HalfWord) {
                    Err(error) => (Err(error), self, m),
                    Ok(avail) => if queue.last_avail == avail {
                        (Ok(None), self, m)
                    } else {
                        match ring_value(
                            m,
                            queue.avail,
                            4 + (queue.last_avail as int % queue.size as int) * 2,
                            AccessWidth::HalfWord,
                        ) {
                            Err(error) => (Err(error), self, m),
                            Ok(head) => if head >= queue.size {
                                (Err(QueueError::InvalidDescriptor), self, m)
                            } else {
                                let (chain, n) = chain_from(
                                    m,
                                    queue,
                                    queue.size as nat,
                                    head as u16,
                                    empty_chain(head as u16),
                                    false,
                                );
                                match chain {
                                    Err(error) => (Err(error), self, n),
                                    Ok(chain) => (
                                        Ok(Some(chain)),
                                        TransportModel {
                                            queues: self.queues.update(
                                                index as int,
                                                VirtQueue {
                                                    last_avail: queue.last_avail.wrapping_add(1),
                                                    ..queue
                                                },
                                            ),
                                            ..self
                                        },
                                        n,
                                    ),
                                }
                            },
                        }
                    },
                },
            }
        }
    }

    /// Publishes a chain as used and raises the queue interrupt.
    pub open spec fn completes(self, m: MemoryModel, index: u16, chain: ChainModel, written: u32) -> (
        Result<(), QueueError>,
        TransportModel,
        MemoryModel,
    ) {
        let queue = self.queues[index as int];
        if index >= 8 {
            (Err(QueueError::InvalidQueue), self, m)
        } else {
            match queue_fault(queue) {
                Some(error) => (Err(error), self, m),
                None => if written > chain.writable {
                    (Err(QueueError::TooShort), self, m)
                } else {
                    match ring_value(m, queue.used, 2, AccessWidth::HalfWord) {
                        Err(error) => (Err(error), self, m),
                        Ok(used) => {
                            let slot = (used as int) % queue.size as int;
                            match address_sum(queue.used, 4 + slot * 8) {
                                Err(error) => (Err(error), self, m),
                                Ok(element) => match ring_write(
                                    m,
                                    element,
                                    0,
                                    AccessWidth::Word,
                                    chain.head as u64,
                                ) {
                                    (Err(error), n) => (Err(error), self, n),
                                    (Ok(_), n) => match ring_write(
                                        n,
                                        element,
                                        4,
                                        AccessWidth::Word,
                                        written as u64,
                                    ) {
                                        (Err(error), o) => (Err(error), self, o),
                                        (Ok(_), o) => match ring_write(
                                            o,
                                            queue.used,
                                            2,
                                            AccessWidth::HalfWord,
                                            (used as u16).wrapping_add(1) as u64,
                                        ) {
                                            (Err(error), p) => (Err(error), self, p),
                                            (Ok(_), p) => (
                                                Ok(()),
                                                TransportModel {
                                                    interrupt_status: self.interrupt_status | 1,
                                                    ..self
                                                },
                                                p,
                                            ),
                                        },
                                    },
                                },
                            }
                        },
                    }
                },
            }
        }
    }

    /// The transport after the device configuration has changed.
    pub open spec fn config_changed(self) -> TransportModel {
        TransportModel {
            config_generation: self.config_generation.wrapping_add(1),
            interrupt_status: self.interrupt_status | 2,
            ..self
        }
    }

    /// A transport for a device; `maxima` are the sizes of its queues.
    pub open spec fn fresh(device_id: u32, device_features: u64, maxima: Seq<u16>) -> TransportModel {
        TransportModel {
            device_id,
            device_features: device_features | VERSION_1,
            driver_features: 0,
            device_features_sel: 0,
            driver_features_sel: 0,
            queue_sel: 0,
            queues: Seq::new(
                8,
                |i: int|
                    {
                        let size = if i < maxima.len() {
                            maxima[i]
                        } else {
                            0
                        };
                        VirtQueue {
                            max_size: size,
                            size,
                            ready: false,
                            last_avail: 0,
                            desc: 0,
                            avail: 0,
                            used: 0,
                        }
                    },
            ),
            status: 0,
            interrupt_status: 0,
            config_generation: 0,
        }
    }
}

impl VirtioTransport {
    #[must_use]
    pub fn new(device_id: u32, device_features: u64, queue_maxima: &[u16]) -> (r: Self)
        ensures
            r@ == TransportModel::fresh(device_id, device_features, queue_maxima@),
            r@.valid(),
    {
        let none = VirtQueue {
            max_size: 0,
            size: 0,
            ready: false,
            last_avail: 0,
            desc: 0,
            avail: 0,
            used: 0,
        };
        let mut queues: [VirtQueue; 8] = [none; 8];
        let mut i: usize = 0;
        let ghost goal = TransportModel::fresh(device_id, device_features, queue_maxima@).queues;
        while i < 8 && i < queue_maxima.len()
            invariant
                i <= 8,
                i <= queue_maxima.len(),
                goal == TransportModel::fresh(device_id, device_features, queue_maxima@).queues,
                none == (VirtQueue {
                    max_size: 0,
                    size: 0,
                    ready: false,
                    last_avail: 0,
                    desc: 0,
                    avail: 0,
                    used: 0,
                }),
                forall|j: int| 0 <= j < i ==> queues@[j] == goal[j],
                forall|j: int| i <= j < 8 ==> queues@[j] == none,
            decreases 8 - i,
        {
            queues[i] = VirtQueue {
                max_size: queue_maxima[i],
                size: queue_maxima[i],
                ready: false,
                last_avail: 0,
                desc: 0,
                avail: 0,
                used: 0,
            };
            i = i + 1;
        }
        assert(queues@ =~= goal);
        VirtioTransport {
            device_id,
            device_features: device_features | VERSION_1,
            driver_features: 0,
            device_features_sel: 0,
            driver_features_sel: 0,
            queue_sel: 0,
            queues,
            status: 0,
            interrupt_status: 0,
            config_generation: 0,
        }
    }

    pub fn reset(&mut self)
        requires
            old(self)@.valid(),
        ensures
            final(self)@ == old(self)@.reset(),
            final(self)@.valid(),
    {
        self.driver_features = 0;
        self.device_features_sel = 0;
        self.driver_features_sel = 0;
        self.queue_sel = 0;
        self.status = 0;
        self.interrupt_status = 0;
        let mut i: usize = 0;
        while i < 8
            invariant
                i <= 8,
                self@ == (TransportModel { queues: self.queues@, ..old(self)@.reset() }),
                forall|j: int| 0 <= j < i ==> self.queues@[j] == reset_queue(old(self)@.queues[j]),
                forall|j: int| i <= j < 8 ==> self.queues@[j] == old(self)@.queues[j],
            decreases 8 - i,
        {
            let max_size: u16 = self.queues[i].max_size;
            self.queues[i] = VirtQueue {
                max_size,
                size: max_size,
                ready: false,
                last_avail: 0,
                desc: 0,
                avail: 0,
                used: 0,
            };
            i = i + 1;
        }
        assert(self.queues@ =~= old(self)@.reset().queues);
    }

    #[must_use]
    pub fn irq(&self) -> (r: bool)
        ensures
            r == (self@.interrupt_status != 0),
    {
        self.interrupt_status != 0
    }

    #[must_use]
    pub fn queue(&self, index: QueueIndex) -> (r: Option<&VirtQueue>)
        ensures
            r == (if index.0 < 8 {
                Some(&self@.queues[index.0 as int])
            } else {
                None
            }),
    {
        if index.0 < 8 {
            Some(&self.queues[index.0 as usize])
        } else {
            None
        }
    }

    #[must_use]
    pub fn driver_features(&self) -> (r: u64)
        ensures
            r == self@.driver_features,
    {
        self.driver_features
    }

    #[must_use]
    pub fn status(&self) -> (r: u32)
        ensures
            r == self@.status,
    {
        self.status
    }

    #[must_use]
    pub fn read_mmio(&self, offset: u32, width: AccessWidth) -> (r: u32)
        requires
            self@.valid(),
        ensures
            r == self@.register(offset, width),
    {
        if width != AccessWidth::Word {
            return 0;
        }
        let queue: VirtQueue = self.queues[self.queue_sel as usize];
        match offset {
            0x000 => MAGIC_VALUE,
            0x004 => 2,
            0x008 => self.device_id,
            0x00c => VENDOR_ID,
            0x010 => select_u64(self.device_features, self.device_features_sel),
            0x014 => self.device_features_sel,
            0x020 => select_u64(self.driver_features, self.driver_features_sel),
            0x024 => self.driver_features_sel,
            0x030 => self.queue_sel as u32,
            0x034 => queue.max_size as u32,
            0x038 => queue.size as u32,
            0x044 => if queue.ready {
                1
            } else {
                0
            },
            0x060 => self.interrupt_status,
            0x070 => self.status,
            0x080 => bytes::low_u32(queue.desc),
            0x084 => bytes::high_u32(queue.desc),
            0x090 => bytes::low_u32(queue.avail),
            0x094 => bytes::high_u32(queue.avail),
            0x0a0 => bytes::low_u32(queue.used),
            0x0a4 => bytes::high_u32(queue.used),
            0x0fc => self.config_generation,
            _ => 0,
        }
    }

    pub fn write_mmio(&mut self, offset: u32, value: u32, width: AccessWidth)
        requires
            old(self)@.valid(),
        ensures
            final(self)@ == old(self)@.written(offset, value, width),
            final(self)@.valid(),
    {
        if width != AccessWidth::Word {
            return;
        }
        let selected: usize = self.queue_sel as usize;
        let mut queue: VirtQueue = self.queues[selected];
        match offset {
            0x014 => {
                self.device_features_sel = value;
            },
            0x020 => {
                self.driver_features = set_selected_u64(
                    self.driver_features,
                    self.driver_features_sel,
                    value,
                );
            },
            0x024 => {
                self.driver_features_sel = value;
            },
            0x030 => {
                if value < 8 {
                    self.queue_sel = value as u16;
                }
            },
            0x038 => {
                if is_power_of_two(value) && value <= queue.max_size as u32 {
                    queue.size = value as u16;
                    self.queues[selected] = queue;
                }
            },
            0x044 => {
                queue.ready = value % 2 == 1;
                self.queues[selected] = queue;
            },
            0x064 => {
                self.interrupt_status = self.interrupt_status & !value;
            },
            0x070 => {
                if value == 0 {
                    self.reset();
                } else {
                    self.status = if value & STATUS_FEATURES_OK != 0 && self.driver_features
                        & !self.device_features != 0 {
                        value & !STATUS_FEATURES_OK
                    } else {
                        value
                    };
                }
            },
            0x080 => {
                queue.desc = bytes::set_low(queue.desc, value);
                self.queues[selected] = queue;
            },
            0x084 => {
                queue.desc = bytes::set_high(queue.desc, value);
                self.queues[selected] = queue;
            },
            0x090 => {
                queue.avail = bytes::set_low(queue.avail, value);
                self.queues[selected] = queue;
            },
            0x094 => {
                queue.avail = bytes::set_high(queue.avail, value);
                self.queues[selected] = queue;
            },
            0x0a0 => {
                queue.used = bytes::set_low(queue.used, value);
                self.queues[selected] = queue;
            },
            0x0a4 => {
                queue.used = bytes::set_high(queue.used, value);
                self.queues[selected] = queue;
            },
            _ => {},
        }
    }

    /// Returns and advances past the next available descriptor chain.
    ///
    /// # Errors
    ///
    /// Returns an error for an invalid queue or malformed guest descriptor chain.
    pub fn next_chain<M: MemoryAccess>(&mut self, memory: &mut M, index: QueueIndex) -> (r: Result<
        Option<DescriptorChain>,
        QueueError,
    >)
        requires
            old(self)@.valid(),
            old(memory).model().valid(),
        ensures
            ({
                let whole = old(self)@.takes(old(memory).model(), index.0);
                &&& match r {
                    Ok(Some(chain)) => whole.0 == Ok::<_, QueueError>(Some(chain@)),
                    Ok(None) => whole.0 == Ok::<Option<ChainModel>, QueueError>(None),
                    Err(error) => whole.0 == Err::<Option<ChainModel>, _>(error),
                }
                &&& final(self)@ == whole.1
                &&& final(memory).model() == whole.2
            }),
            final(self)@.valid(),
            final(memory).model().follows(old(memory).model()),
    {
        if index.0 >= 8 {
            return Err(QueueError::InvalidQueue);
        }
        let queue: VirtQueue = self.queues[index.0 as usize];
        if !queue.ready {
            return Err(QueueError::NotReady);
        }
        match validate_queue(&queue) {
            Ok(()) => {},
            Err(error) => {
                return Err(error);
            },
        }
        let avail: u64 = match read_ring(memory, queue.avail, 2, AccessWidth::HalfWord) {
            Ok(value) => value,
            Err(error) => {
                return Err(error);
            },
        };
        if queue.last_avail as u64 == avail {
            return Ok(None);
        }
        let slot: u64 = (queue.last_avail % queue.size) as u64;
        let head: u64 = match read_ring(
            memory,
            queue.avail,
            4 + slot * 2,
            AccessWidth::HalfWord,
        ) {
            Ok(value) => value,
            Err(error) => {
                return Err(error);
            },
        };
        if head >= queue.size as u64 {
            return Err(QueueError::InvalidDescriptor);
        }
        match read_chain(memory, &queue, DescriptorIndex(head as u16)) {
            Ok(chain) => {
                self.queues[index.0 as usize] = VirtQueue {
                    last_avail: queue.last_avail.wrapping_add(1),
                    ..queue
                };
                Ok(Some(chain))
            },
            Err(error) => Err(error),
        }
    }

    /// Copies bytes from the readable portion of a descriptor chain.
    ///
    /// # Errors
    ///
    /// Returns an error when the range exceeds the chain or guest RAM is invalid.
    pub fn read_chain<M: MemoryAccess>(
        &self,
        memory: &mut M,
        chain: &DescriptorChain,
        offset: u32,
        destination: &mut [u8],
    ) -> (r: Result<(), QueueError>)
        requires
            old(memory).model().valid(),
        ensures
            (r, final(destination)@) == chain@.reads(
                old(memory).model(),
                offset,
                old(destination)@,
            ),
            final(memory).model() == old(memory).model(),
    {
        copy_chain(memory, chain, offset, destination)
    }

    /// Copies bytes into the writable portion of a descriptor chain.
    ///
    /// # Errors
    ///
    /// Returns an error when the range exceeds the chain or guest RAM is invalid.
    pub fn write_chain<M: MemoryAccess>(
        &self,
        memory: &mut M,
        chain: &DescriptorChain,
        offset: u32,
        source: &[u8],
    ) -> (r: Result<(), QueueError>)
        requires
            old(memory).model().valid(),
        ensures
            (r, final(memory).model()) == chain@.writes(old(memory).model(), offset, source@),
            final(memory).model().follows(old(memory).model()),
    {
        write_chain_bytes(memory, chain, offset, source)
    }

    /// Publishes a used-ring element and raises the queue interrupt.
    ///
    /// # Errors
    ///
    /// Returns an error for an invalid queue, length, or used-ring address.
    pub fn complete_chain<M: MemoryAccess>(
        &mut self,
        memory: &mut M,
        index: QueueIndex,
        chain: &DescriptorChain,
        written: u32,
    ) -> (r: Result<(), QueueError>)
        requires
            old(self)@.valid(),
            old(memory).model().valid(),
        ensures
            (r, final(self)@, final(memory).model()) == old(self)@.completes(
                old(memory).model(),
                index.0,
                chain@,
                written,
            ),
            final(self)@.valid(),
            final(memory).model().follows(old(memory).model()),
    {
        if index.0 >= 8 {
            return Err(QueueError::InvalidQueue);
        }
        let queue: VirtQueue = self.queues[index.0 as usize];
        match validate_queue(&queue) {
            Ok(()) => {},
            Err(error) => {
                return Err(error);
            },
        }
        if written > chain.writable {
            return Err(QueueError::TooShort);
        }
        proof {
            bytes::lemma_pow256();
        }
        let used: u16 = match read_ring(memory, queue.used, 2, AccessWidth::HalfWord) {
            Ok(value) => value as u16,
            Err(error) => {
                return Err(error);
            },
        };
        let slot: u64 = (used % queue.size) as u64;
        let element: u64 = match checked_add(queue.used, 4 + slot * 8) {
            Ok(element) => element,
            Err(error) => {
                return Err(error);
            },
        };
        match write_ring(memory, element, 0, AccessWidth::Word, chain.head.0 as u64) {
            Ok(()) => {},
            Err(error) => {
                return Err(error);
            },
        }
        match write_ring(memory, element, 4, AccessWidth::Word, written as u64) {
            Ok(()) => {},
            Err(error) => {
                return Err(error);
            },
        }
        match write_ring(
            memory,
            queue.used,
            2,
            AccessWidth::HalfWord,
            used.wrapping_add(1) as u64,
        ) {
            Ok(()) => {},
            Err(error) => {
                return Err(error);
            },
        }
        self.interrupt_status = self.interrupt_status | 1;
        Ok(())
    }

    pub fn raise_config_interrupt(&mut self)
        ensures
            final(self)@ == old(self)@.config_changed(),
            old(self)@.valid() ==> final(self)@.valid(),
    {
        self.config_generation = self.config_generation.wrapping_add(1);
        self.interrupt_status = self.interrupt_status | 2;
    }
}

/// The bytes in the segments of one direction.
pub open spec fn segment_bytes(segments: Seq<Segment>, writable: bool) -> nat
    decreases segments.len(),
{
    if segments.len() == 0 {
        0
    } else {
        let rest = segment_bytes(segments.drop_last(), writable);
        if segments.last().writable == writable {
            rest + segments.last().len as nat
        } else {
            rest
        }
    }
}

/// A chain reads before it writes, knows its sizes, and stays in the address
/// space.
pub open spec fn sound_chain(chain: ChainModel) -> bool {
    &&& forall|i: int, j: int|
        0 <= i < j < chain.segments.len() && (#[trigger] chain.segments[i]).writable ==> (
        #[trigger] chain.segments[j]).writable
    &&& forall|i: int|
        0 <= i < chain.segments.len() ==> (#[trigger] chain.segments[i]).address
            + chain.segments[i].len <= u64::MAX
    &&& chain.readable == segment_bytes(chain.segments, false)
    &&& chain.writable == segment_bytes(chain.segments, true)
}

proof fn lemma_chain_sound(
    m: MemoryModel,
    queue: VirtQueue,
    steps: nat,
    index: u16,
    so_far: ChainModel,
    writing: bool,
)
    requires
        sound_chain(so_far),
        !writing ==> forall|i: int|
            0 <= i < so_far.segments.len() ==> !(#[trigger] so_far.segments[i]).writable,
    ensures
        chain_from(m, queue, steps, index, so_far, writing).0 matches Ok(chain) ==> sound_chain(
            chain,
        ) && chain.head == so_far.head && 0 < chain.segments.len() <= so_far.segments.len() + steps,
    decreases steps,
{
    if steps > 0 && index < queue.size {
        if let Ok(descriptor) = descriptor_at(m, queue, index) {
            let writable = descriptor.flags & DESC_F_WRITE != 0;
            let total = if writable {
                so_far.writable + descriptor.len
            } else {
                so_far.readable + descriptor.len
            };
            let n = m.accessed(descriptor.address, descriptor.len as nat, writable);
            let segment = Segment { address: descriptor.address, len: descriptor.len, writable };
            let segments = so_far.segments.push(segment);
            assert(segments.drop_last() =~= so_far.segments);
            let grown = ChainModel {
                head: so_far.head,
                readable: if writable {
                    so_far.readable
                } else {
                    total as u32
                },
                writable: if writable {
                    total as u32
                } else {
                    so_far.writable
                },
                segments,
            };
            let o = if descriptor.len != 0 {
                n
            } else {
                m
            };
            if total <= u32::MAX && (writable || !writing) && (descriptor.len == 0
                || descriptor.address + descriptor.len <= u64::MAX) {
                assert(sound_chain(grown));
                lemma_chain_sound(
                    o,
                    queue,
                    (steps - 1) as nat,
                    descriptor.next,
                    grown,
                    writing || writable,
                );
            }
        }
    }
}

/// A chain that a queue hands out reads before it writes, has the sizes that
/// its segments add up to, and is no longer than the queue.
pub proof fn law_chain_is_sound(t: TransportModel, m: MemoryModel, index: u16)
    requires
        t.valid(),
    ensures
        t.takes(m, index).0 matches Ok(Some(chain)) ==> sound_chain(chain) && chain.segments.len()
            <= t.queues[index as int].size,
{
    let queue = t.queues[index as int];
    if index < 8 {
        if let Ok(head) = ring_value(
            m,
            queue.avail,
            4 + (queue.last_avail as int % queue.size as int) * 2,
            AccessWidth::HalfWord,
        ) {
            lemma_chain_sound(
                m,
                queue,
                queue.size as nat,
                head as u16,
                empty_chain(head as u16),
                false,
            );
        }
    }
}

/// A driver that asks for a feature that the device does not offer is refused.
pub proof fn law_unknown_feature_is_refused(t: TransportModel, value: u32)
    requires
        value != 0,
        t.driver_features & !t.device_features != 0,
    ensures
        t.written(0x070, value, AccessWidth::Word).status & STATUS_FEATURES_OK == 0,
{
    assert((value & !8u32) & 8u32 == 0) by (bit_vector);
}

/// A returned chain raises the interrupt, which stays raised until the driver
/// acknowledges it.
pub proof fn law_interrupt_until_acknowledged(
    t: TransportModel,
    m: MemoryModel,
    index: u16,
    chain: ChainModel,
    written: u32,
)
    requires
        t.valid(),
        t.completes(m, index, chain, written).0 is Ok,
    ensures
        ({
            let after = t.completes(m, index, chain, written).1;
            &&& after.interrupt_status != 0
            &&& after.register(0x060, AccessWidth::Word) == after.interrupt_status
            &&& after.written(
                0x064,
                after.interrupt_status,
                AccessWidth::Word,
            ).interrupt_status == 0
        }),
{
    let status = t.interrupt_status;
    assert(status | 1u32 != 0 && (status | 1u32) & !(status | 1u32) == 0) by (bit_vector);
}

/// A reset leaves what the device offers and nothing of what a driver set up.
pub proof fn law_reset_forgets_the_driver(t: TransportModel, i: int)
    requires
        t.valid(),
        0 <= i < 8,
    ensures
        ({
            let after = t.written(0x070, 0, AccessWidth::Word);
            &&& after.valid()
            &&& after.device_id == t.device_id && after.device_features == t.device_features
            &&& after.status == 0 && after.driver_features == 0 && after.interrupt_status == 0
            &&& after.queues[i] == (VirtQueue {
                max_size: t.queues[i].max_size,
                size: t.queues[i].max_size,
                ready: false,
                last_avail: 0,
                desc: 0,
                avail: 0,
                used: 0,
            })
        }),
{
}

} // verus!
