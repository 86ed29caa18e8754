//! What a client of a filesystem relies on, in the bytes that it sends and gets.

use vstd::prelude::*;
use vstd::utf8::{encode_utf8, encode_utf8_decode_utf8, encode_utf8_valid_utf8};
use crate::bytes;
use crate::bytes::{u16_at, u32_at, u64_at};
use crate::http_9p::{DataModel, Fid, FsModel, NodeKindModel, StatusModel};
use crate::p9::{self, Answer};
use crate::virtio_devices::DeviceError;

verus! {

/// Whether bytes are a whole request of a kind that a filesystem can take.
pub open spec fn is_request(fs: FsModel, d: Seq<u8>, kind: u8) -> bool {
    &&& fs.valid()
    &&& fs.initialized
    &&& 7 <= d.len() <= fs.msize
    &&& u32_at(d, 0) == d.len()
    &&& d[4] == kind
}

/// Whether a request was answered by a message of a kind, with its tag.
pub open spec fn is_reply(r: Result<StatusModel, DeviceError>, d: Seq<u8>, kind: u8) -> bool {
    &&& r matches Ok(StatusModel::Complete(x))
    &&& x.len() >= 7
    &&& u32_at(x, 0) == x.len()
    &&& x[4] == kind
    &&& x[5] == d[5] && x[6] == d[6]
}

/// What an answer holds behind its kind and tag.
pub open spec fn body_of(r: Result<StatusModel, DeviceError>) -> Seq<u8> {
    match r {
        Ok(StatusModel::Complete(x)) => x.skip(7),
        _ => Seq::empty(),
    }
}

/// Whether a request was refused with an error number.
pub open spec fn is_refused(r: Result<StatusModel, DeviceError>, d: Seq<u8>, errno: u32) -> bool {
    is_reply(r, d, 7) && body_of(r).len() == 4 && u32_at(body_of(r), 0) == errno
}

/// Whether a name stands at a place of a message: its length and its characters.
pub open spec fn name_at(d: Seq<u8>, p: int, name: Seq<char>) -> bool {
    let data = encode_utf8(name);
    &&& data.len() < 0x1_0000
    &&& p + 2 + data.len() <= d.len()
    &&& u16_at(d, p) == data.len()
    &&& d.subrange(p + 2, p + 2 + data.len()) == data
}

/// The place behind a name.
pub open spec fn behind_name(p: int, name: Seq<char>) -> int {
    p + 2 + encode_utf8(name).len()
}

/// Whether two filesystems hold the same nodes but for one.
pub open spec fn same_but_node(a: FsModel, b: FsModel, node: usize) -> bool {
    &&& a.nodes.len() == b.nodes.len()
    &&& forall|i: int|
        0 <= i < a.nodes.len() && i != node ==> (#[trigger] b.nodes[i]) == a.nodes[i]
}

/// Bit `k` of a set of flags.
pub open spec fn flag(flags: int, k: nat) -> bool {
    (flags / (vstd::arithmetic::power2::pow2(k) as int)) % 2 == 1
}

proof fn lemma_flags(f: u32)
    ensures
        f & 1 != 0 <==> flag(f as int, 0),
        f & 2 != 0 <==> flag(f as int, 1),
        f & 4 != 0 <==> flag(f as int, 2),
        f & 8 != 0 <==> flag(f as int, 3),
        f & 0x20 != 0 <==> flag(f as int, 5),
        f & 0x200 != 0 <==> flag(f as int, 9),
        f & 0x400 != 0 <==> flag(f as int, 10),
{
    vstd::arithmetic::power2::lemma2_to64();
    assert((f & 1 != 0) == (f % 2 == 1) && (f & 2 != 0) == (f / 2 % 2 == 1) && (f & 4 != 0) == (f
        / 4 % 2 == 1) && (f & 8 != 0) == (f / 8 % 2 == 1) && (f & 0x20 != 0) == (f / 0x20 % 2 == 1)
        && (f & 0x200 != 0) == (f / 0x200 % 2 == 1) && (f & 0x400 != 0) == (f / 0x400 % 2 == 1))
        by (bit_vector);
}

proof fn lemma_fields(d: Seq<u8>, p: int)
    requires
        0 <= p,
    ensures
        p + 2 <= d.len() ==> p9::field(d, p, 2) == Some(u16_at(d, p) as nat),
        p + 4 <= d.len() ==> p9::field(d, p, 4) == Some(u32_at(d, p) as nat),
        p + 8 <= d.len() ==> p9::field(d, p, 8) == Some(u64_at(d, p) as nat),
{
    bytes::lemma_numbers_at(d, p);
}

proof fn lemma_name(d: Seq<u8>, p: int, name: Seq<char>)
    requires
        0 <= p,
        name_at(d, p, name),
    ensures
        p9::string_at(d, p) == Some((name, behind_name(p, name))),
{
    lemma_fields(d, p);
    encode_utf8_valid_utf8(name);
    encode_utf8_decode_utf8(name);
}

proof fn lemma_le(value: nat, len: nat)
    requires
        value < bytes::pow256(len),
    ensures
        bytes::le_bytes(value, len).len() == len,
        len == 1 ==> bytes::le_bytes(value, len)[0] == value,
        len == 2 ==> u16_at(bytes::le_bytes(value, len), 0) == value,
        len == 4 ==> u32_at(bytes::le_bytes(value, len), 0) == value,
        len == 8 ==> u64_at(bytes::le_bytes(value, len), 0) == value,
{
    let b = bytes::le_bytes(value, len);
    bytes::lemma_le_bytes_len(value, len);
    assert(b.subrange(0, len as int) =~= b);
    bytes::lemma_written_number(b, 0, value, len);
}

/// What a request does is what the answer to it says.
proof fn lemma_transacted(fs: FsModel, d: Seq<u8>, kind: u8)
    requires
        is_request(fs, d, kind),
        kind < 255,
    ensures
        ({
            let tag = u16_at(d, 5) as u16;
            let (r, after) = fs.transacted(d);
            match fs.handled(kind, tag, d) {
                Answer::Waits { fs: waits } => r == Ok::<_, DeviceError>(StatusModel::Pending)
                    && after == waits,
                Answer::Fails { fs: left, errno } => is_refused(r, d, errno) && after == left,
                Answer::Done { fs: done, body, end } => after == done && (7 + body.len() <= fs.msize
                    && end == d.len() ==> is_reply(r, d, (kind + 1) as u8) && body_of(r) == body),
            }
        }),
{
    let tag = u16_at(d, 5) as u16;
    bytes::lemma_numbers_at(d, 0);
    bytes::lemma_numbers_at(d, 5);
    let (r, after) = fs.transacted(d);
    bytes::lemma_pow256();
    match fs.handled(kind, tag, d) {
        Answer::Done { body, end, .. } => {
            if 7 + body.len() <= fs.msize && end == d.len() {
                lemma_message((kind + 1) as u8, d, body);
            }
        },
        Answer::Fails { errno, .. } => {
            let body = bytes::le_bytes(errno as nat, 4);
            lemma_le(errno as nat, 4);
            lemma_message(7, d, body);
        },
        _ => {},
    }
}

proof fn lemma_message(kind: u8, d: Seq<u8>, body: Seq<u8>)
    requires
        d.len() >= 7,
        body.len() <= 0x1_0000,
    ensures
        ({
            let r = Ok::<_, DeviceError>(
                StatusModel::Complete(p9::message(kind, u16_at(d, 5) as u16, body)),
            );
            is_reply(r, d, kind) && body_of(r) == body
        }),
{
    let tag = u16_at(d, 5) as nat;
    let x = p9::message(kind, tag as u16, body);
    bytes::lemma_pow256();
    lemma_le(7 + body.len(), 4);
    lemma_le(kind as nat, 1);
    lemma_le(tag, 2);
    assert(x.subrange(0, 4) =~= bytes::le_bytes(7 + body.len(), 4));
    assert(x.subrange(4, 5) =~= bytes::le_bytes(kind as nat, 1));
    assert(x.subrange(5, 7) =~= bytes::le_bytes(tag, 2));
    bytes::lemma_written_number(x, 0, 7 + body.len(), 4);
    bytes::lemma_written_number(x, 4, kind as nat, 1);
    bytes::lemma_written_number(x, 5, tag, 2);
    assert(x.skip(7) =~= body);
}

/// Opening a file with bit 9 (`O_TRUNC`) empties it. Opening without that bit
/// changes no node, whatever the other flags are. Either way the fid keeps its
/// node and takes the flags, and the answer names the node.
pub proof fn law_open(fs: FsModel, d: Seq<u8>)
    requires
        is_request(fs, d, 12),
        d.len() == 15,
    ensures
        ({
            let number = u32_at(d, 7) as u32;
            let flags = u32_at(d, 11);
            let (r, after) = fs.transacted(d);
            let node = fs.fids[number].node;
            let kind = fs.nodes[node as int].kind;
            &&& !fs.fids.contains_key(number) ==> is_refused(r, d, 9) && after == fs
            &&& fs.fids.contains_key(number) && flag(flags, 9) && !(kind is File) ==> is_refused(
                r,
                d,
                21,
            ) && after == fs
            &&& fs.fids.contains_key(number) && (flag(flags, 9) ==> kind is File) ==> {
                &&& after.fids == fs.fids.insert(number, Fid { node, flags: flags as u32 })
                &&& same_but_node(fs, after, node)
                &&& flag(flags, 9) ==> after.nodes[node as int].kind == NodeKindModel::File(
                    DataModel::Local(Seq::empty()),
                )
                &&& !flag(flags, 9) ==> after.nodes == fs.nodes
                &&& is_reply(r, d, 13)
                &&& body_of(r).len() == 17
                &&& u64_at(body_of(r), 5) == node
            }
        }),
{
    let number = u32_at(d, 7) as u32;
    let flags = u32_at(d, 11) as u32;
    lemma_fields(d, 7);
    lemma_fields(d, 11);
    lemma_flags(flags);
    lemma_transacted(fs, d, 12);
    let (r, after) = fs.transacted(d);
    if fs.fids.contains_key(number) {
        let node = fs.fids[number].node;
        let answer = fs.handled(12, u16_at(d, 5) as u16, d);
        if let Answer::Done { fs: done, body, end } = answer {
            lemma_qid(done, node);
            bytes::lemma_pow256();
            lemma_le((fs.msize - 24) as nat, 4);
            assert(body.subrange(5, 13) =~= done.qid(node).subrange(5, 13));
            assert(u64_at(body, 5) == u64_at(done.qid(node), 5));
            if !flag(flags as int, 9) {
                assert(after.nodes == fs.nodes);
            } else {
                assert(p9::fitted(
                    fs.nodes[node as int].kind->File_0->Local_0,
                    0,
                ) =~= Seq::<u8>::empty());
            }
        }
    }
}

/// A node's identity: its type (directory `0x80`, link `2`, else `0`), its
/// version and its number.
pub proof fn lemma_qid(fs: FsModel, node: usize)
    ensures
        ({
            let q = fs.qid(node);
            let n = fs.nodes[node as int];
            &&& q.len() == 13
            &&& q[0] == (match n.kind {
                NodeKindModel::Directory(_) => 0x80u8,
                NodeKindModel::Symlink(_) => 2u8,
                _ => 0u8,
            })
            &&& u32_at(q, 1) == n.version
            &&& u64_at(q, 5) == node
        }),
{
    let q = fs.qid(node);
    let n = fs.nodes[node as int];
    let kind: u8 = match n.kind {
        NodeKindModel::Directory(_) => 0x80,
        NodeKindModel::Symlink(_) => 2,
        _ => 0,
    };
    bytes::lemma_pow256();
    lemma_le(kind as nat, 1);
    lemma_le(n.version as nat, 4);
    lemma_le(node as nat, 8);
    assert(q.subrange(0, 1) =~= bytes::le_bytes(kind as nat, 1));
    assert(q.subrange(1, 5) =~= bytes::le_bytes(n.version as nat, 4));
    assert(q.subrange(5, 13) =~= bytes::le_bytes(node as nat, 8));
    bytes::lemma_written_number(q, 0, kind as nat, 1);
    bytes::lemma_written_number(q, 1, n.version as nat, 4);
    bytes::lemma_written_number(q, 5, node as nat, 8);
}

/// A read gives the bytes of a file from the offset on: as many as were asked
/// for, as there are, and as a message has room for.
pub proof fn law_read(fs: FsModel, d: Seq<u8>, data: Seq<u8>)
    requires
        is_request(fs, d, 116),
        d.len() == 23,
        fs.fids.contains_key(u32_at(d, 7) as u32),
        fs.nodes[fs.fids[u32_at(d, 7) as u32].node as int].kind == NodeKindModel::File(
            DataModel::Local(data),
        ),
        u64_at(d, 11) <= usize::MAX,
    ensures
        ({
            let (offset, count) = (u64_at(d, 11), u32_at(d, 19));
            let (r, after) = fs.transacted(d);
            let n = u32_at(body_of(r), 0);
            &&& after == fs
            &&& is_reply(r, d, 117)
            &&& 0 <= n <= count && n <= fs.msize - 11
            &&& body_of(r).len() == 4 + n
            &&& n < count && n < fs.msize - 11 ==> offset + n == data.len() || n == 0 && offset
                >= data.len()
            &&& forall|i: int|
                0 <= i < n ==> offset + i < data.len() && #[trigger] body_of(r)[4 + i]
                    == data[offset + i]
        }),
{
    let (offset, count) = (u64_at(d, 11) as nat, u32_at(d, 19) as nat);
    lemma_fields(d, 7);
    lemma_fields(d, 11);
    lemma_fields(d, 19);
    lemma_transacted(fs, d, 116);
    let part = p9::slice_of(data, offset, count, (fs.msize - 11) as nat);
    let body = bytes::le_bytes(part.len(), 4) + part;
    let n = part.len() as int;
    bytes::lemma_pow256();
    lemma_le(part.len(), 4);
    assert(body.subrange(0, 4) =~= bytes::le_bytes(part.len(), 4));
    bytes::lemma_written_number(body, 0, part.len(), 4);
    assert(body_of(fs.transacted(d).0) == body);
    assert forall|i: int| 0 <= i < n implies offset + i < data.len() && #[trigger] body[4 + i]
        == data[offset + i] by {
        assert(body[4 + i] == part[i]);
    }
}

/// A write puts its bytes into a file at the offset, or at the end if the file
/// was opened with bit 10 (`O_APPEND`); a gap reads as zeros, the rest of the
/// file and every other node stay as they were.
pub proof fn law_write(fs: FsModel, d: Seq<u8>, data: Seq<u8>)
    requires
        is_request(fs, d, 118),
        d.len() >= 23,
        d.len() == 23 + u32_at(d, 19),
        fs.fids.contains_key(u32_at(d, 7) as u32),
        fs.nodes[fs.fids[u32_at(d, 7) as u32].node as int].kind == NodeKindModel::File(
            DataModel::Local(data),
        ),
        u64_at(d, 11) <= usize::MAX,
    ensures
        ({
            let fid = fs.fids[u32_at(d, 7) as u32];
            let count = u32_at(d, 19);
            let start = if flag(fid.flags as int, 10) {
                data.len() as int
            } else {
                u64_at(d, 11)
            };
            let (r, after) = fs.transacted(d);
            if start + count > 0x100_0000 {
                is_refused(r, d, 27) && after == fs
            } else {
                &&& after.nodes[fid.node as int].kind matches NodeKindModel::File(
                    DataModel::Local(now),
                )
                &&& now.len() == (if start + count > data.len() {
                    start + count
                } else {
                    data.len() as int
                })
                &&& forall|i: int|
                    0 <= i < now.len() ==> #[trigger] now[i] == (if start <= i < start + count {
                        d[23 + i - start]
                    } else if i < data.len() {
                        data[i]
                    } else {
                        0
                    })
                &&& same_but_node(fs, after, fid.node)
                &&& after.fids == fs.fids
                &&& is_reply(r, d, 119)
                &&& body_of(r).len() == 4
                &&& u32_at(body_of(r), 0) == count
            }
        }),
{
    let fid = fs.fids[u32_at(d, 7) as u32];
    let count = u32_at(d, 19) as nat;
    lemma_fields(d, 7);
    lemma_fields(d, 11);
    lemma_fields(d, 19);
    lemma_flags(fid.flags);
    lemma_transacted(fs, d, 118);
    let part = d.subrange(23, 23 + count as int);
    let body = bytes::le_bytes(part.len(), 4);
    bytes::lemma_pow256();
    lemma_le(part.len(), 4);
    let start = if flag(fid.flags as int, 10) {
        data.len() as int
    } else {
        u64_at(d, 11)
    };
    let (r, after) = fs.transacted(d);
    if start + count <= 0x100_0000 {
        assert(body_of(r) == body);
        let now = p9::written(data, start as nat, part);
        assert(after.nodes[fid.node as int].kind == NodeKindModel::File(DataModel::Local(now)));
        assert forall|i: int| 0 <= i < now.len() implies #[trigger] now[i] == (if start <= i < start
            + count {
            d[23 + i - start]
        } else if i < data.len() {
            data[i]
        } else {
            0
        }) by {}
    }
}

proof fn lemma_long_numbers(values: Seq<u64>, i: int)
    requires
        0 <= i < values.len(),
    ensures
        p9::long_numbers(values).len() == 8 * values.len(),
        u64_at(p9::long_numbers(values), 8 * i) == values[i],
    decreases values.len(),
{
    let all = p9::long_numbers(values);
    let before = p9::long_numbers(values.drop_last());
    bytes::lemma_pow256();
    lemma_le(values.last() as nat, 8);
    if values.len() > 1 {
        lemma_long_numbers(values.drop_last(), 0);
    }
    if i < values.len() - 1 {
        lemma_long_numbers(values.drop_last(), i);
        assert(all.subrange(8 * i, 8 * i + 8) =~= before.subrange(8 * i, 8 * i + 8));
        lemma_same_number(all, 8 * i, before, 8 * i);
    } else {
        let last = bytes::le_bytes(values.last() as nat, 8);
        assert(all.subrange(8 * i, 8 * i + 8) =~= last.subrange(0, 8));
        lemma_same_number(all, 8 * i, last, 0);
    }
}

/// Equal bytes read as equal numbers.
proof fn lemma_same_number(a: Seq<u8>, p: int, b: Seq<u8>, q: int)
    requires
        0 <= p && p + 8 <= a.len(),
        0 <= q && q + 8 <= b.len(),
        a.subrange(p, p + 8) == b.subrange(q, q + 8),
    ensures
        u64_at(a, p) == u64_at(b, q),
        u32_at(a, p) == u32_at(b, q),
        u32_at(a, p + 4) == u32_at(b, q + 4),
{
    let x = a.subrange(p, p + 8);
    let y = b.subrange(q, q + 8);
    assert(x[0] == y[0]);
    assert(x[1] == y[1]);
    assert(x[2] == y[2]);
    assert(x[3] == y[3]);
    assert(x[4] == y[4]);
    assert(x[5] == y[5]);
    assert(x[6] == y[6]);
    assert(x[7] == y[7]);
    assert(x[0] == a[p] && y[0] == b[q]);
    assert(x[1] == a[p + 1] && y[1] == b[q + 1]);
    assert(x[2] == a[p + 2] && y[2] == b[q + 2]);
    assert(x[3] == a[p + 2 + 1] && y[3] == b[q + 2 + 1]);
    assert(x[4] == a[p + 4] && y[4] == b[q + 4]);
    assert(x[5] == a[p + 4 + 1] && y[5] == b[q + 4 + 1]);
    assert(x[6] == a[p + 4 + 2] && y[6] == b[q + 4 + 2]);
    assert(x[7] == a[p + 4 + 2 + 1] && y[7] == b[q + 4 + 2 + 1]);
    assert(u32_at(a, p) == u32_at(b, q));
    assert(u32_at(a, p + 4) == u32_at(b, q + 4));
}

/// The size of a node: the bytes of a file, wherever it is, or of a link's target.
pub open spec fn size_of(fs: FsModel, node: usize) -> int {
    match fs.nodes[node as int].kind {
        NodeKindModel::File(DataModel::Local(data)) => data.len() as int,
        NodeKindModel::File(DataModel::Remote { size, .. }) => size as int,
        NodeKindModel::File(DataModel::Loading { size }) => size as int,
        NodeKindModel::Symlink(target) => encode_utf8(target).len() as int,
        _ => 0,
    }
}

/// The attributes of a node (`Tgetattr`, 24): behind what was asked for and the
/// identity come type and permissions, owner and group, a link count of 1, the
/// size, blocks of 4096 bytes, the number of 512-byte units, and three times the
/// time of the last change.
pub proof fn law_attributes(fs: FsModel, d: Seq<u8>)
    requires
        is_request(fs, d, 24),
        d.len() == 19,
        fs.fids.contains_key(u32_at(d, 7) as u32),
        size_of(fs, fs.fids[u32_at(d, 7) as u32].node) <= 0xffff_ffff_ffff_fe00,
    ensures
        ({
            let node = fs.fids[u32_at(d, 7) as u32].node;
            let n = fs.nodes[node as int];
            let (r, after) = fs.transacted(d);
            let x = body_of(r);
            &&& after == fs
            &&& is_reply(r, d, 25)
            &&& x.len() == 153
            &&& u64_at(x, 0) == u64_at(d, 11)
            &&& u64_at(x, 13) == node
            &&& u32_at(x, 21) == (match n.kind {
                NodeKindModel::Directory(_) => 0x4000u32,
                NodeKindModel::Symlink(_) => 0xa000,
                NodeKindModel::File(_) => 0x8000,
                NodeKindModel::Command => 0x8000,
                NodeKindModel::Special => 0,
            } | n.mode)
            &&& u32_at(x, 25) == n.uid
            &&& u32_at(x, 29) == n.gid
            &&& u64_at(x, 33) == 1
            &&& u64_at(x, 49) == size_of(fs, node)
            &&& u64_at(x, 57) == 4096
            &&& u64_at(x, 65) == (size_of(fs, node) + 511) / 512
            &&& u64_at(x, 73) == n.mtime
            &&& u64_at(x, 89) == n.mtime
            &&& u64_at(x, 105) == n.mtime
            &&& u64_at(x, 145) == n.version
        }),
{
    let number = u32_at(d, 7) as u32;
    let node = fs.fids[number].node;
    let n = fs.nodes[node as int];
    lemma_fields(d, 7);
    lemma_fields(d, 11);
    lemma_transacted(fs, d, 24);
    bytes::lemma_pow256();
    let size = size_of(fs, node);
    let values = seq![
        1u64,
        0,
        size as u64,
        4096,
        ((size + 511) / 512) as u64,
        n.mtime,
        0,
        n.mtime,
        0,
        n.mtime,
        0,
        0,
        0,
        0,
        n.version as u64,
    ];
    let tail = p9::long_numbers(values);
    let requested = u64_at(d, 11) as nat;
    let x = fs.attributes(node, requested);
    lemma_qid(fs, node);
    lemma_le(requested, 8);
    lemma_le(fs.node_mode(node) as nat, 4);
    lemma_le(n.uid as nat, 4);
    lemma_le(n.gid as nat, 4);
    lemma_long_numbers(values, 0);
    assert(x.len() == 153);
    assert(x.subrange(0, 8) =~= bytes::le_bytes(requested, 8));
    bytes::lemma_written_number(x, 0, requested, 8);
    assert(x.subrange(13, 21) =~= fs.qid(node).subrange(5, 13));
    lemma_same_number(x, 13, fs.qid(node), 5);
    assert(x.subrange(21, 25) =~= bytes::le_bytes(fs.node_mode(node) as nat, 4));
    bytes::lemma_written_number(x, 21, fs.node_mode(node) as nat, 4);
    assert(x.subrange(25, 29) =~= bytes::le_bytes(n.uid as nat, 4));
    bytes::lemma_written_number(x, 25, n.uid as nat, 4);
    assert(x.subrange(29, 33) =~= bytes::le_bytes(n.gid as nat, 4));
    bytes::lemma_written_number(x, 29, n.gid as nat, 4);
    assert forall|i: int| 0 <= i < 15 implies u64_at(x, 33 + 8 * i) == #[trigger] values[i] by {
        lemma_long_numbers(values, i);
        assert(x.subrange(33 + 8 * i, 33 + 8 * i + 8) =~= tail.subrange(8 * i, 8 * i + 8));
        lemma_same_number(x, 33 + 8 * i, tail, 8 * i);
    }
    assert(values[0] == 1 && values[2] == size && values[3] == 4096 && values[4] == (size + 511)
        / 512 && values[5] == n.mtime && values[7] == n.mtime && values[9] == n.mtime && values[14]
        == n.version);
}

/// Setting attributes (`Tsetattr`, 26) changes what the mask names and nothing else:
/// bit 0 the permissions, bit 1 the owner, bit 2 the group, bit 3 the size, bit 5
/// the time of the last change. A smaller size cuts a file, a larger one fills it
/// up with zeros.
pub proof fn law_set_attributes(fs: FsModel, d: Seq<u8>, data: Seq<u8>)
    requires
        is_request(fs, d, 26),
        d.len() == 67,
        fs.fids.contains_key(u32_at(d, 7) as u32),
        fs.nodes[fs.fids[u32_at(d, 7) as u32].node as int].kind == NodeKindModel::File(
            DataModel::Local(data),
        ),
        u64_at(d, 27) <= 0x100_0000,
    ensures
        ({
            let node = fs.fids[u32_at(d, 7) as u32].node;
            let mask = u32_at(d, 11);
            let n = fs.nodes[node as int];
            let (r, after) = fs.transacted(d);
            let now = after.nodes[node as int];
            let size = u64_at(d, 27);
            &&& is_reply(r, d, 27)
            &&& body_of(r).len() == 0
            &&& same_but_node(fs, after, node)
            &&& after.fids == fs.fids
            &&& now.name == n.name && now.parent == n.parent
            &&& now.mode == if flag(mask, 0) {
                u32_at(d, 15) as u32 & 0xfff
            } else {
                n.mode
            }
            &&& now.uid == if flag(mask, 1) {
                u32_at(d, 19)
            } else {
                n.uid as int
            }
            &&& now.gid == if flag(mask, 2) {
                u32_at(d, 23)
            } else {
                n.gid as int
            }
            &&& now.mtime == if flag(mask, 5) {
                u64_at(d, 51)
            } else {
                n.mtime as int
            }
            &&& !flag(mask, 3) ==> now.kind == n.kind
            &&& flag(mask, 3) ==> {
                &&& now.kind is File && now.kind->File_0 is Local
                &&& now.kind->File_0->Local_0.len() == size
                &&& forall|i: int|
                    0 <= i < size ==> (#[trigger] now.kind->File_0->Local_0[i]) == if i
                        < data.len() {
                        data[i]
                    } else {
                        0
                    }
            }
        }),
{
    lemma_fields(d, 7);
    lemma_fields(d, 11);
    lemma_fields(d, 15);
    lemma_fields(d, 19);
    lemma_fields(d, 23);
    lemma_fields(d, 27);
    lemma_fields(d, 51);
    lemma_fields(d, 59);
    lemma_flags(u32_at(d, 11) as u32);
    lemma_transacted(fs, d, 26);
}

/// Making a file, a directory or a link (`Tlcreate`, 14; `Tmkdir`, 72; `Tsymlink`, 16)
/// in the directory of a fid puts a new node under the name that was given: an
/// empty file or directory with the permissions that were given, or a link to the
/// target that was given. Whoever makes a file goes on with it.
pub proof fn law_make(fs: FsModel, d: Seq<u8>, kind: u8, name: Seq<char>, target: Seq<char>)
    requires
        is_request(fs, d, kind),
        fs.nodes.len() < usize::MAX,
        kind == 14 || kind == 72 || kind == 16,
        fs.fids.contains_key(u32_at(d, 7) as u32),
        fs.nodes[fs.fids[u32_at(d, 7) as u32].node as int].kind is Directory,
        name_at(d, 11, name),
        kind == 14 ==> d.len() == behind_name(11, name) + 12,
        kind == 72 ==> d.len() == behind_name(11, name) + 8,
        kind == 16 ==> name_at(d, behind_name(11, name), target) && d.len() == behind_name(
            behind_name(11, name),
            target,
        ) + 4,
        crate::listing::is_name(name),
        fs.child_node(fs.fids[u32_at(d, 7) as u32].node, name) is Err,
    ensures
        ({
            let number = u32_at(d, 7) as u32;
            let parent = fs.fids[number].node;
            let made = fs.nodes.len() as usize;
            let p = behind_name(11, name);
            let (r, after) = fs.transacted(d);
            let n = after.nodes[made as int];
            &&& is_reply(r, d, (kind + 1) as u8)
            &&& u64_at(body_of(r), 5) == made
            &&& after.child_node(parent, name) == Ok::<usize, u32>(made)
            &&& n.parent == parent && n.name == name
            &&& n.kind == if kind == 14 {
                NodeKindModel::File(DataModel::Local(Seq::empty()))
            } else if kind == 72 {
                NodeKindModel::Directory(Seq::empty())
            } else {
                NodeKindModel::Symlink(target)
            }
            &&& n.mode == if kind == 14 {
                u32_at(d, p + 4) as u32 & 0xfff
            } else if kind == 72 {
                u32_at(d, p) as u32 & 0xfff
            } else {
                0x1ffu32 & 0xfff
            }
            &&& after.fids == if kind == 14 {
                fs.fids.insert(number, Fid { node: made, flags: u32_at(d, p) as u32 })
            } else {
                fs.fids
            }
        }),
{
    let number = u32_at(d, 7) as u32;
    let parent = fs.fids[number].node;
    let made = fs.nodes.len() as usize;
    let p = behind_name(11, name);
    lemma_fields(d, 7);
    lemma_name(d, 11, name);
    lemma_fields(d, p);
    lemma_fields(d, p + 4);
    lemma_transacted(fs, d, kind);
    bytes::lemma_pow256();
    let empty = NodeKindModel::File(DataModel::Local(Seq::empty()));
    if kind == 14 {
        lemma_fields(d, p + 8);
        let mode = u32_at(d, p + 4) as u32;
        p9::law_made_node_is_found(fs, parent, name, mode, empty);
        let done = fs.created(parent, name, mode, empty)->Ok_0;
        lemma_qid(done, made);
        lemma_le((fs.msize - 24) as nat, 4);
        let body = done.qid(made) + p9::le((fs.msize - 24) as nat, 4);
        assert(body.subrange(5, 13) =~= done.qid(made).subrange(5, 13));
        lemma_same_number(body, 5, done.qid(made), 5);
    } else if kind == 72 {
        let mode = u32_at(d, p) as u32;
        let directory = NodeKindModel::Directory(Seq::empty());
        p9::law_made_node_is_found(fs, parent, name, mode, directory);
        lemma_qid(fs.created(parent, name, mode, directory)->Ok_0, made);
    } else {
        lemma_name(d, p, target);
        lemma_fields(d, behind_name(p, target));
        let link = NodeKindModel::Symlink(target);
        p9::law_made_node_is_found(fs, parent, name, 0x1ff, link);
        lemma_qid(fs.created(parent, name, 0x1ff, link)->Ok_0, made);
    }
}

/// Removing a name (`Tunlinkat`, 76): bit 9 of the flags (`AT_REMOVEDIR`) says that it
/// names a directory, and is refused for anything else (20), as a directory is
/// without it (21), and a directory that is not empty (39). What succeeds takes the
/// name away.
pub proof fn law_unlink(fs: FsModel, d: Seq<u8>, name: Seq<char>, node: usize)
    requires
        is_request(fs, d, 76),
        fs.fids.contains_key(u32_at(d, 7) as u32),
        name_at(d, 11, name),
        d.len() == behind_name(11, name) + 4,
        fs.child_node(fs.fids[u32_at(d, 7) as u32].node, name) == Ok::<usize, u32>(node),
    ensures
        ({
            let parent = fs.fids[u32_at(d, 7) as u32].node;
            let directory = flag(u32_at(d, behind_name(11, name)), 9);
            let kind = fs.nodes[node as int].kind;
            let (r, after) = fs.transacted(d);
            if kind is Directory && !directory {
                is_refused(r, d, 21) && after == fs
            } else if !(kind is Directory) && directory {
                is_refused(r, d, 20) && after == fs
            } else if kind is Directory && kind->Directory_0.len() > 0 {
                is_refused(r, d, 39) && after == fs
            } else {
                &&& is_reply(r, d, 77)
                &&& body_of(r).len() == 0
                &&& after.child_node(parent, name) == Err::<usize, u32>(2)
                &&& same_but_node(fs, after, parent)
                &&& after.fids == fs.fids
            }
        }),
{
    let p = behind_name(11, name);
    lemma_fields(d, 7);
    lemma_name(d, 11, name);
    lemma_fields(d, p);
    lemma_flags(u32_at(d, p) as u32);
    lemma_transacted(fs, d, 76);
    let parent = fs.fids[u32_at(d, 7) as u32].node;
    p9::law_removed_name_is_gone(fs, parent, name, u32_at(d, p) as u32, p + 4);
}

/// Moving a name (`Trenameat`, 74) puts the node of the old name under the new one,
/// in the directory of the second fid.
pub proof fn law_rename(fs: FsModel, d: Seq<u8>, name: Seq<char>, new_name: Seq<char>, node: usize)
    requires
        is_request(fs, d, 74),
        fs.fids.contains_key(u32_at(d, 7) as u32),
        name_at(d, 11, name),
        name_at(d, behind_name(11, name) + 4, new_name),
        d.len() == behind_name(behind_name(11, name) + 4, new_name),
        fs.fids.contains_key(u32_at(d, behind_name(11, name)) as u32),
        crate::listing::is_name(new_name),
        fs.child_node(fs.fids[u32_at(d, 7) as u32].node, name) == Ok::<usize, u32>(node),
    ensures
        ({
            let from = fs.fids[u32_at(d, 7) as u32].node;
            let to = fs.fids[u32_at(d, behind_name(11, name)) as u32].node;
            let (r, after) = fs.transacted(d);
            if fs.child_node(to, new_name) is Ok {
                is_refused(r, d, 17) && after == fs
            } else if !(fs.nodes[to as int].kind is Directory) {
                is_refused(r, d, 20)
            } else {
                &&& is_reply(r, d, 75)
                &&& body_of(r).len() == 0
                &&& after.child_node(to, new_name) == Ok::<usize, u32>(node)
                &&& after.nodes[node as int].parent == to
                &&& after.nodes[node as int].name == new_name
                &&& after.fids == fs.fids
            }
        }),
{
    let p = behind_name(11, name);
    lemma_fields(d, 7);
    lemma_name(d, 11, name);
    lemma_fields(d, p);
    lemma_name(d, p + 4, new_name);
    lemma_transacted(fs, d, 74);
    let from = fs.fids[u32_at(d, 7) as u32].node;
    let to = fs.fids[u32_at(d, p) as u32].node;
    p9::law_moved_node_is_found(fs, from, name, to, new_name, d.len() as int);
    p9::lemma_child_exists(fs, from, name);
}

/// Giving up a fid (`Tclunk`, 120) forgets it and nothing else; an unknown fid is
/// refused (9). A request of a kind that does not exist is refused (95).
pub proof fn law_fids(fs: FsModel, d: Seq<u8>, other: u32)
    requires
        fs.initialized,
    ensures
        is_request(fs, d, 120) && d.len() == 11 ==> ({
            let number = u32_at(d, 7) as u32;
            let (r, after) = fs.transacted(d);
            if !fs.fids.contains_key(number) {
                is_refused(r, d, 9) && after == fs
            } else {
                &&& is_reply(r, d, 121)
                &&& !after.fids.contains_key(number)
                &&& other != number ==> after.fids.contains_key(other) == fs.fids.contains_key(other)
                    && (fs.fids.contains_key(other) ==> after.fids[other] == fs.fids[other])
                &&& after.nodes == fs.nodes
            }
        }),
        is_request(fs, d, 6) || is_request(fs, d, 30) || is_request(fs, d, 102) || is_request(
            fs,
            d,
            122,
        ) ==> is_refused(fs.transacted(d).0, d, 95) && fs.transacted(d).1 == fs,
{
    if is_request(fs, d, 120) && d.len() == 11 {
        lemma_fields(d, 7);
        lemma_transacted(fs, d, 120);
    } else if is_request(fs, d, 6) {
        lemma_transacted(fs, d, 6);
    } else if is_request(fs, d, 30) {
        lemma_transacted(fs, d, 30);
    } else if is_request(fs, d, 102) {
        lemma_transacted(fs, d, 102);
    } else if is_request(fs, d, 122) {
        lemma_transacted(fs, d, 122);
    }
}

/// Walking (`Twalk`, 110) over one name puts the new fid on the node that the name
/// leads to: the directory's own for `.`, its parent for `..`, else the one that it
/// lists; the answer names that node. Over no name the new fid is a copy. A name
/// that leads nowhere is refused as the directory says.
pub proof fn law_walk(fs: FsModel, d: Seq<u8>, name: Seq<char>)
    requires
        is_request(fs, d, 110),
        fs.fids.contains_key(u32_at(d, 7) as u32),
        !fs.fids.contains_key(u32_at(d, 11) as u32),
        u16_at(d, 15) == 1 && name_at(d, 17, name) && d.len() == behind_name(17, name) || u16_at(
            d,
            15,
        ) == 0 && d.len() == 17,
    ensures
        ({
            let from = fs.fids[u32_at(d, 7) as u32].node;
            let new = u32_at(d, 11) as u32;
            let (r, after) = fs.transacted(d);
            let found = if name == "."@ {
                Ok(from)
            } else if name == ".."@ {
                Ok(fs.nodes[from as int].parent)
            } else {
                fs.child_node(from, name)
            };
            if u16_at(d, 15) == 0 {
                &&& is_reply(r, d, 111)
                &&& u16_at(body_of(r), 0) == 0 && body_of(r).len() == 2
                &&& after.fids == fs.fids.insert(new, Fid { node: from, flags: 0 })
                &&& after.nodes == fs.nodes
            } else {
                match found {
                    Ok(node) => {
                        &&& is_reply(r, d, 111)
                        &&& u16_at(body_of(r), 0) == 1 && body_of(r).len() == 15
                        &&& u64_at(body_of(r), 7) == node
                        &&& after.fids == fs.fids.insert(new, Fid { node, flags: 0 })
                        &&& after.nodes == fs.nodes
                    },
                    Err(errno) => is_refused(r, d, errno) && after == fs,
                }
            }
        }),
{
    lemma_fields(d, 7);
    lemma_fields(d, 11);
    lemma_fields(d, 15);
    lemma_transacted(fs, d, 110);
    bytes::lemma_pow256();
    lemma_le(0, 2);
    lemma_le(1, 2);
    reveal_with_fuel(p9::walked, 2);
    reveal_with_fuel(p9::qids, 2);
    let from = fs.fids[u32_at(d, 7) as u32].node;
    if u16_at(d, 15) == 1 {
        lemma_name(d, 17, name);
        let found = if name == "."@ {
            Ok(from)
        } else if name == ".."@ {
            Ok(fs.nodes[from as int].parent)
        } else {
            fs.child_node(from, name)
        };
        if let Ok(node) = found {
            let seen = Seq::<usize>::empty().push(node);
            lemma_qid(fs, node);
            let q = p9::qids(fs, seen);
            assert(seen.drop_last() =~= Seq::<usize>::empty());
            assert(q =~= fs.qid(node));
            let body = p9::le(1, 2) + q;
            assert(body.subrange(7, 15) =~= fs.qid(node).subrange(5, 13));
            lemma_same_number(body, 7, fs.qid(node), 5);
            assert(body.subrange(0, 2) =~= bytes::le_bytes(1, 2));
            bytes::lemma_written_number(body, 0, 1, 2);
        }
    } else {
        let body = p9::le(0, 2) + p9::qids(fs, Seq::empty());
        assert(body =~= bytes::le_bytes(0, 2));
    }
}

} // verus!
