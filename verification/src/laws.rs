//! What holds of every machine, and of the runtime around it.

use vstd::prelude::*;
use crate::browser_runtime::RuntimeModel;
use crate::browser_storage::{positive, zero_bytes, QueueModel, RequestModel, StoreModel};
use crate::config::{self, DriveModel, Members, Tree, MAX_DRIVES};
use crate::cpu::{MIP_MSIP, MIP_MTIP};
use crate::entropy::{Draws, EntropyError, EntropySource};
use crate::fdt::BuilderModel;
use crate::machine::{Host, MachineModel, SlotModel};
use crate::running::ErrorModel;

verus! {

proof fn lemma_timer_line(mip: u32, software: u32, external: u32)
    by (bit_vector)
    requires
        software == 0 || software == 8,
        external == 0 || external == 0x800 || external == (0u32 | 0x200) || external == (0x800u32
            | 0x200),
    ensures
        ((mip & !(((8u32 | 0x80) | 0x800) | 0x200)) | ((software | 0x80) | external)) & 0x80 != 0,
        ((mip & !(((8u32 | 0x80) | 0x800) | 0x200)) | (software | external)) & 0x80 == 0,
{
}

proof fn lemma_other_line(mip: u32)
    by (bit_vector)
    ensures
        (mip | 0x20) & 0x80 == mip & 0x80,
        (mip & !0x20) & 0x80 == mip & 0x80,
{
}

proof fn lemma_enabled_line(mip: u32, mie: u32)
    by (bit_vector)
    requires
        mip & 0x80 != 0,
        mie & 0x80 != 0,
    ensures
        mip & mie != 0,
{
}

/// The timer interrupt is pending exactly while the clock has reached the
/// timer's deadline, and a CPU that waits with it enabled goes on.
pub proof fn law_due_timer_interrupts<H: Host>(
    m: MachineModel<H>,
    timer_ticks: u64,
    host_nanoseconds: u64,
)
    ensures
        m.at(timer_ticks, host_nanoseconds).cpu.control.mip & MIP_MTIP != 0 <==> timer_ticks
            >= m.bus.clint.deadline,
        timer_ticks >= m.bus.clint.deadline && m.cpu.control.mie & MIP_MTIP != 0 ==> !m.at(
            timer_ticks,
            host_nanoseconds,
        ).cpu.control.power_down,
{
    let after = m.at(timer_ticks, host_nanoseconds);
    let software = if m.bus.clint.msip {
        MIP_MSIP
    } else {
        0u32
    };
    lemma_timer_line(m.cpu.control.mip, software, after.bus.plic.lines());
    let direct = if timer_ticks >= m.bus.clint.deadline {
        software | MIP_MTIP
    } else {
        software
    };
    let synced = (m.cpu.control.mip & !crate::machine::device_interrupts()) | (direct
        | after.bus.plic.lines());
    lemma_other_line(synced);
    if after.cpu.control.mip & MIP_MTIP != 0 && m.cpu.control.mie & MIP_MTIP != 0 {
        lemma_enabled_line(after.cpu.control.mip, m.cpu.control.mie);
    }
}

/// Another device leaves those before it in their slots.
pub proof fn law_devices_keep_their_slots<H: Host>(m: MachineModel<H>, slot: SlotModel<H>, i: int)
    requires
        0 <= i < m.bus.virtio.len(),
    ensures
        m.with_slot(slot).bus.virtio[i] == m.bus.virtio[i],
        m.with_slot(slot).bus.virtio.last() == slot,
{
}

/// An answer whose status is no success is refused, and changes nothing.
pub proof fn law_failed_answer_changes_nothing<E: EntropySource>(
    m: RuntimeModel<E>,
    id: u32,
    status: u16,
    data: Seq<u8>,
    entropy: Result<(Draws, Draws), EntropyError>,
)
    requires
        status < 200 || status >= 300,
    ensures
        m.answered(id, status, data, entropy) == (
            Err::<(), ErrorModel>(ErrorModel::HttpStatus(status)),
            m,
        ),
{
}

/// Whether a request fetches a block of a disk.
pub open spec fn fetches_block(m: StoreModel, request: RequestModel) -> bool {
    request.method is Get && exists|block: u32|
        block < m.block_count && request.url == #[trigger] m.block_url(block)
}

/// Whether all that a disk still has to send are requests for its blocks.
pub open spec fn only_fetches(m: StoreModel) -> bool {
    forall|i: int|
        0 <= i < m.queue.outgoing.len() ==> fetches_block(m, #[trigger] m.queue.outgoing[i])
}

/// Whether two disks come from the same place.
spec fn same_place(m: StoreModel, n: StoreModel) -> bool {
    m.base_url == n.base_url && m.block_count == n.block_count
}

proof fn lemma_same_place(m: StoreModel, n: StoreModel, request: RequestModel)
    requires
        same_place(m, n),
        fetches_block(m, request),
    ensures
        fetches_block(n, request),
{
    let block = choose|block: u32|
        block < m.block_count && request.url == #[trigger] m.block_url(block);
    assert(n.block_url(block) == m.block_url(block));
}

proof fn lemma_asked_fetches(m: StoreModel, block: u32)
    requires
        only_fetches(m),
    ensures
        only_fetches(m.asked(block).1),
        same_place(m, m.asked(block).1),
{
    let n = m.asked(block).1;
    assert forall|i: int| 0 <= i < n.queue.outgoing.len() implies fetches_block(
        n,
        #[trigger] n.queue.outgoing[i],
    ) by {
        if i < m.queue.outgoing.len() {
            lemma_same_place(m, n, m.queue.outgoing[i]);
        } else {
            assert(n.queue.outgoing[i].url == n.block_url(block));
        }
    }
}

proof fn lemma_quiet(m: StoreModel, n: StoreModel)
    requires
        only_fetches(m),
        same_place(m, n),
        n.queue.outgoing == m.queue.outgoing,
    ensures
        only_fetches(n),
{
    assert forall|i: int| 0 <= i < n.queue.outgoing.len() implies fetches_block(
        n,
        #[trigger] n.queue.outgoing[i],
    ) by {
        lemma_same_place(m, n, m.queue.outgoing[i]);
    }
}

proof fn lemma_read_fetches(m: StoreModel, sector: u64, data: Seq<u8>, i: nat)
    requires
        only_fetches(m),
    ensures
        only_fetches(m.reads_from(sector, data, i).2),
        same_place(m, m.reads_from(sector, data, i).2),
    decreases data.len() - i * 512,
{
    if (i + 1) * 512 <= data.len() {
        let at = (sector + i) as u64;
        let (r, after) = m.reads_sector(at);
        let block = (at as nat / m.sectors_per_block()) as u32;
        lemma_asked_fetches(m, block);
        if r is Ok {
            lemma_quiet(m, after);
            lemma_read_fetches(
                after,
                sector,
                crate::bytes::spliced(data, (i * 512) as int, r->Ok_0),
                i + 1,
            );
        }
    }
}

proof fn lemma_covered_fetches(m: StoreModel, cluster: u64)
    requires
        only_fetches(m),
    ensures
        only_fetches(m.covered(cluster).1),
        same_place(m, m.covered(cluster).1),
{
    if !m.overlays.contains_key(cluster) {
        let zeros = zero_bytes(m.cluster_sectors(cluster) * 512);
        lemma_read_fetches(m, (cluster * 8) as u64, zeros, 0);
        lemma_quiet(m.reads((cluster * 8) as u64, zeros).2, m.covered(cluster).1);
    }
}

proof fn lemma_write_fetches(m: StoreModel, sector: u64, data: Seq<u8>, i: nat)
    requires
        only_fetches(m),
    ensures
        only_fetches(m.writes_from(sector, data, i).1),
        same_place(m, m.writes_from(sector, data, i).1),
    decreases data.len() - i * 512,
{
    if (i + 1) * 512 <= data.len() {
        let at = (sector + i) as u64;
        let part = data.subrange((i * 512) as int, (i * 512 + 512) as int);
        let (r, after) = m.writes_sector(at, part);
        lemma_covered_fetches(m, at / 8);
        lemma_quiet(m.covered(at / 8).1, after);
        if r is Ok {
            lemma_write_fetches(after, sector, data, i + 1);
        }
    }
}

proof fn lemma_trimmed_is_quiet(m: StoreModel, newest: u32)
    ensures
        m.trimmed(newest).queue == m.queue,
        same_place(m, m.trimmed(newest)),
    decreases m.cache.dom().len(),
{
    if !(m.cache.dom().len() * m.block_size <= m.cache_limit || !m.cache.dom().finite()
        || m.cache.dom().len() == 0) {
        let block = choose|block: u32| m.is_oldest(block, newest);
        if m.cache.contains_key(block) {
            lemma_trimmed_is_quiet(StoreModel { cache: m.cache.remove(block), ..m }, newest);
        }
    }
}

/// A disk never sends what was written to it: whatever is read, written or
/// answered, all its requests fetch blocks of its own.
pub proof fn law_disk_only_fetches(m: StoreModel, sector: u64, data: Seq<u8>, id: u32)
    requires
        only_fetches(m),
    ensures
        only_fetches(m.reads(sector, data).2),
        only_fetches(m.writes(sector, data).1),
        only_fetches(m.completed(id, data).1),
        only_fetches(StoreModel { queue: m.queue.sent(), ..m }),
{
    lemma_read_fetches(m, sector, data, 0);
    lemma_write_fetches(m, sector, data, 0);
    let queue = QueueModel {
        pending: m.queue.pending.remove(id),
        ..m.queue
    };
    let clock = m.clock.wrapping_add(1);
    lemma_trimmed_is_quiet(
        StoreModel {
            clock,
            cache: m.cache.insert(m.pending[id], (clock, data)),
            queue,
            pending: m.pending.remove(id),
            ..m
        },
        m.pending[id],
    );
    lemma_quiet(m, m.completed(id, data).1);
    let sent = StoreModel { queue: m.queue.sent(), ..m };
    assert forall|i: int| 0 <= i < sent.queue.outgoing.len() implies fetches_block(
        sent,
        #[trigger] sent.queue.outgoing[i],
    ) by {
        let before = if m.queue.outgoing.len() == 0 {
            i
        } else {
            i + 1
        };
        assert(sent.queue.outgoing[i] == m.queue.outgoing[before]);
        lemma_same_place(m, sent, m.queue.outgoing[before]);
    }
}

proof fn lemma_prefetch_fetches(m: StoreModel, blocks: Seq<Tree>, i: nat)
    requires
        only_fetches(m),
    ensures
        m.prefetched(blocks, i) matches Ok(n) ==> {
            &&& only_fetches(n)
            &&& n.cache == m.cache && n.overlays == m.overlays
            &&& n.block_size == m.block_size && n.cache_limit == m.cache_limit
        },
    decreases blocks.len() - i,
{
    if i < blocks.len() {
        if let Tree::Integer(block) = blocks[i as int] {
            if block >= 0 {
                lemma_asked_fetches(m, block as u32);
                if m.asked(block as u32).0 is Ok {
                    lemma_prefetch_fetches(m.asked(block as u32).1, blocks, i + 1);
                }
            }
        }
    }
}

/// A disk starts with nothing but requests for its blocks: nothing is cached or
/// written, its ages are in order, and its cache has room for what it was given
/// or for one block, whichever is more.
pub proof fn law_new_disk_only_fetches(url: Seq<char>, source: Seq<u8>, cache_limit: nat)
    ensures
        StoreModel::from_source(url, source, cache_limit) matches Ok(m) ==> {
            &&& only_fetches(m)
            &&& m.cache == Map::<u32, (u64, Seq<u8>)>::empty()
            &&& m.overlays == Map::<u64, Seq<u8>>::empty()
            &&& m.ages_in_order()
            &&& m.cache_limit == if cache_limit > m.block_size {
                cache_limit
            } else {
                m.block_size
            }
        },
{
    if let Ok(Tree::Record(members)) = config::parsed(source) {
        if let Some(Tree::List(blocks)) = config::member(
            members,
            "prefetch"@,
        ) {
            if let Ok(kib) = positive(config::member(members, "block_size"@), "block_size") {
                if let Ok(count) = positive(config::member(members, "n_block"@), "n_block") {
                    let size = kib * 1024;
                    lemma_prefetch_fetches(
                        StoreModel {
                            base_url: crate::text::through_last(url, '/'),
                            block_size: size as nat,
                            block_count: count as u32,
                            cache_limit: if cache_limit > size {
                                cache_limit
                            } else {
                                size as nat
                            },
                            clock: 0,
                            cache: Map::empty(),
                            overlays: Map::empty(),
                            pending: Map::empty(),
                            queue: QueueModel::initial(),
                        },
                        blocks,
                        0,
                    );
                }
            }
        }
    }
}

proof fn lemma_consecutive_drives(m: Members, index: nat, so_far: Seq<DriveModel>)
    requires
        so_far.len() == index,
        index <= MAX_DRIVES,
        forall|i: int|
            0 <= i < index ==> config::member(
                m,
                #[trigger] config::numbered("drive"@, i as nat),
            ) is Some,
    ensures
        config::drives_from(m, index, so_far) matches Ok(drives) ==> {
            &&& drives.len() <= MAX_DRIVES
            &&& forall|i: int|
                0 <= i < drives.len() ==> config::member(
                    m,
                    #[trigger] config::numbered("drive"@, i as nat),
                ) is Some
            &&& drives.len() < MAX_DRIVES ==> config::member(
                m,
                config::numbered("drive"@, drives.len()),
            ) is None
        },
    decreases MAX_DRIVES - index,
{
    if index < MAX_DRIVES {
        let name = config::numbered("drive"@, index);
        if let Some(value) = config::member(m, name) {
            if let Ok(entry) = config::record(value, name) {
                if let Ok(drive) = config::drive_entry(entry) {
                    lemma_consecutive_drives(m, index + 1, so_far.push(drive));
                }
            }
        }
    }
}

/// The drives of a configuration are those from the first number on up to the
/// first that is missing.
pub proof fn law_drives_are_consecutive(m: Members)
    ensures
        config::drives_from(m, 0, Seq::empty()) matches Ok(drives) ==> {
            &&& drives.len() <= MAX_DRIVES
            &&& forall|i: int|
                0 <= i < drives.len() ==> config::member(
                    m,
                    #[trigger] config::numbered("drive"@, i as nat),
                ) is Some
            &&& drives.len() < MAX_DRIVES ==> config::member(
                m,
                config::numbered("drive"@, drives.len()),
            ) is None
        },
{
    lemma_consecutive_drives(m, 0, Seq::empty());
}

/// Devices that a platform does not have are not described to the guest.
pub proof fn law_missing_devices_have_no_node(b: BuilderModel, count: nat)
    ensures
        b.virtio_nodes(count, count) == b,
        b.framebuffer_node(None) == b,
{
}

} // verus!
