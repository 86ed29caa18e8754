//! The messages of 9P2000.L and what a filesystem answers to them.

use vstd::prelude::*;
use crate::bytes;
use crate::http_9p::{
    Child, DataModel, Fid, FileData, FsModel, HttpNineP, NinePRequestStatus, Node, NodeKind,
    NodeKindModel, NodeModel, Pending, StatusModel, EBADF, EEXIST, EFBIG, EINVAL, EIO, EISDIR,
    ENOTDIR, ENOTEMPTY, EOPNOTSUPP, EPROTO, MAX_FILE, MAX_MESSAGE, NOTAG, RLERROR,
};
use crate::listing;
use crate::ninep::NinePRequestId;
use crate::text;
use crate::virtio_devices::DeviceError;

verus! {

broadcast use vstd::std_specs::btree::group_btree_axioms;

/// The number of `len` bytes at a place of a message.
pub open spec fn field(d: Seq<u8>, p: int, len: nat) -> Option<nat> {
    if p + len <= d.len() {
        Some(bytes::le_value(d.subrange(p, p + len)))
    } else {
        None
    }
}

/// The text at a place of a message, and where it ends.
pub open spec fn string_at(d: Seq<u8>, p: int) -> Option<(Seq<char>, int)> {
    match field(d, p, 2) {
        None => None,
        Some(len) => {
            let data = d.subrange(p + 2, p + 2 + len);
            if p + 2 + len > d.len() || !vstd::utf8::valid_utf8(data) {
                None
            } else {
                Some((vstd::utf8::decode_utf8(data), p + 2 + len))
            }
        },
    }
}

/// A number in a message.
pub open spec fn le(value: nat, len: nat) -> Seq<u8> {
    bytes::le_bytes(value, len)
}

/// What a filesystem makes of a message: it answers, it waits for the host, or
/// it refuses. `end` is where the part that was read ends.
pub enum Answer {
    Done { fs: FsModel, body: Seq<u8>, end: int },
    Waits { fs: FsModel },
    Fails { fs: FsModel, errno: u32 },
}

/// What a step gave: a body, nothing yet, or an error number.
pub type Reply = Result<Option<Vec<u8>>, u32>;

/// Whether a step came out as an answer says.
pub open spec fn shown(answer: Answer, r: Reply, fs: FsModel, end: int) -> bool {
    match answer {
        Answer::Done { fs: after, body, end: stop } => (r matches Ok(Some(data)) && data@ == body)
            && fs == after && end == stop,
        Answer::Waits { fs: after } => r == Ok::<Option<Vec<u8>>, u32>(None) && fs == after,
        Answer::Fails { fs: after, errno } => r == Err::<Option<Vec<u8>>, u32>(errno) && fs
            == after,
    }
}

/// A place in a message.
pub struct Reader<'a> {
    pub data: &'a [u8],
    pub offset: usize,
}

impl<'a> Reader<'a> {
    fn number(&mut self, len: usize) -> (r: Option<u64>)
        requires
            old(self).offset <= old(self).data@.len(),
            len <= 8,
        ensures
            final(self).data == old(self).data,
            final(self).offset <= final(self).data@.len(),
            match r {
                Some(value) => field(old(self).data@, old(self).offset as int, len as nat) == Some(
                    value as nat,
                ) && final(self).offset == old(self).offset + len && value < bytes::pow256(
                    len as nat,
                ),
                None => field(old(self).data@, old(self).offset as int, len as nat) is None,
            },
    {
        if self.data.len() - self.offset < len {
            return None;
        }
        let value: u64 = bytes::load_le(self.data, self.offset, len);
        proof {
            bytes::lemma_le_value_bound(
                self.data@.subrange(self.offset as int, self.offset + len),
            );
        }
        self.offset = self.offset + len;
        Some(value)
    }

    fn string(&mut self) -> (r: Option<String>)
        requires
            old(self).offset <= old(self).data@.len(),
        ensures
            final(self).data == old(self).data,
            final(self).offset <= final(self).data@.len(),
            match r {
                Some(value) => string_at(old(self).data@, old(self).offset as int) == Some(
                    (value@, final(self).offset as int),
                ),
                None => string_at(old(self).data@, old(self).offset as int) is None,
            },
    {
        let len: usize = match self.number(2) {
            Some(len) => {
                proof {
                    bytes::lemma_pow256();
                }
                len as usize
            },
            None => {
                return None;
            },
        };
        if self.data.len() - self.offset < len {
            return None;
        }
        let data: Vec<u8> = bytes::copy_range(self.data, self.offset, len);
        assert(data@ =~= self.data@.subrange(self.offset as int, self.offset + len));
        self.offset = self.offset + len;
        text::from_utf8(data)
    }
}

fn put(out: &mut Vec<u8>, value: u64, len: usize)
    requires
        len <= 8,
    ensures
        final(out)@ == old(out)@ + le(value as nat, len as nat),
{
    let mut part: Vec<u8> = bytes::to_le(value, len);
    out.append(&mut part);
}

/// A text as a message holds it.
pub open spec fn string_bytes(value: Seq<char>) -> Seq<u8> {
    let data = vstd::utf8::encode_utf8(value);
    le(data.len(), 2) + data
}

fn put_string(out: &mut Vec<u8>, value: &str) -> (r: bool)
    ensures
        r == (vstd::utf8::encode_utf8(value@).len() <= 0xffff),
        r ==> final(out)@ == old(out)@ + string_bytes(value@),
{
    let mut data: Vec<u8> = text::bytes_of(value);
    if data.len() > 0xffff {
        return false;
    }
    put(out, data.len() as u64, 2);
    let ghost model = data@;
    out.append(&mut data);
    assert(out@ =~= old(out)@ + (le(model.len(), 2) + model));
    true
}

impl FsModel {
    /// The identity of a node as messages give it.
    pub open spec fn qid(self, node: usize) -> Seq<u8> {
        let n = self.nodes[node as int];
        let kind: u8 = match n.kind {
            NodeKindModel::Directory(_) => 0x80,
            NodeKindModel::Symlink(_) => 2,
            _ => 0,
        };
        le(kind as nat, 1) + le(n.version as nat, 4) + le(node as nat, 8)
    }

    pub open spec fn node_size(self, node: usize) -> nat {
        match self.nodes[node as int].kind {
            NodeKindModel::File(DataModel::Remote { size, .. }) => size as nat,
            NodeKindModel::File(DataModel::Loading { size }) => size as nat,
            NodeKindModel::File(DataModel::Local(data)) => data.len(),
            NodeKindModel::Symlink(target) => vstd::utf8::encode_utf8(target).len(),
            _ => 0,
        }
    }

    /// The type and permissions of a node.
    pub open spec fn node_mode(self, node: usize) -> u32 {
        let n = self.nodes[node as int];
        let kind: u32 = match n.kind {
            NodeKindModel::Directory(_) => 0x4000,
            NodeKindModel::Symlink(_) => 0xa000,
            NodeKindModel::File(_) => 0x8000,
            NodeKindModel::Command => 0x8000,
            NodeKindModel::Special => 0,
        };
        kind | n.mode
    }

    pub open spec fn fails(self, errno: u32) -> Answer {
        Answer::Fails { fs: self, errno }
    }

    pub open spec fn done(self, body: Seq<u8>, end: int) -> Answer {
        Answer::Done { fs: self, body, end }
    }

    /// A file of a given size: longer ones are cut, shorter ones filled up with
    /// zeros. Contents on the server can only be dropped.
    pub open spec fn resized(self, node: usize, size: nat) -> Result<FsModel, u32> {
        if size > MAX_FILE {
            Err(EFBIG)
        } else {
            match self.nodes[node as int].kind {
                NodeKindModel::File(DataModel::Local(data)) => Ok(
                    self.with_kind(node, NodeKindModel::File(DataModel::Local(fitted(data, size)))),
                ),
                NodeKindModel::File(_) => if size == 0 {
                    Ok(self.with_kind(node, NodeKindModel::File(DataModel::Local(Seq::empty()))))
                } else {
                    Err(EIO)
                },
                _ => Err(EISDIR),
            }
        }
    }

    /// The filesystem with another node that a message asks for.
    pub open spec fn created(
        self,
        parent: usize,
        name: Seq<char>,
        mode: u32,
        kind: NodeKindModel,
    ) -> Result<FsModel, u32> {
        if !listing::is_name(name) {
            Err(EINVAL)
        } else {
            self.with_node(
                parent,
                NodeModel {
                    parent,
                    name,
                    mode: mode & 0xfff,
                    uid: 0,
                    gid: 0,
                    mtime: 0,
                    version: 0,
                    kind,
                },
            )
        }
    }

    pub open spec fn with_fid(self, number: u32, fid: Fid) -> FsModel {
        FsModel { fids: self.fids.insert(number, fid), ..self }
    }
}

/// Contents of a given length.
pub open spec fn fitted(data: Seq<u8>, size: nat) -> Seq<u8> {
    if size <= data.len() {
        data.take(size as int)
    } else {
        data + Seq::new((size - data.len()) as nat, |i: int| 0u8)
    }
}

impl HttpNineP {
    fn fid(&self, number: u32) -> (r: Option<Fid>)
        ensures
            match r {
                Some(fid) => self@.fids.contains_key(number) && fid == self@.fids[number],
                None => !self@.fids.contains_key(number),
            },
    {
        match self.fids.get(&number) {
            Some(fid) => Some(*fid),
            None => None,
        }
    }

    fn put_qid(&self, out: &mut Vec<u8>, node: usize)
        requires
            node < self@.nodes.len(),
        ensures
            final(out)@ == old(out)@ + self@.qid(node),
    {
        let kind: u64 = match &self.nodes[node].kind {
            NodeKind::Directory(_) => 0x80,
            NodeKind::Symlink(_) => 2,
            _ => 0,
        };
        put(out, kind, 1);
        put(out, self.nodes[node].version as u64, 4);
        put(out, node as u64, 8);
        assert(out@ =~= old(out)@ + self@.qid(node));
    }

    fn size(&self, node: usize) -> (r: u64)
        requires
            node < self@.nodes.len(),
        ensures
            r == self@.node_size(node),
    {
        match &self.nodes[node].kind {
            NodeKind::File(FileData::Remote { size, .. }) => *size,
            NodeKind::File(FileData::Loading { size }) => *size,
            NodeKind::File(FileData::Local(data)) => data.len() as u64,
            NodeKind::Symlink(target) => {
                let data: Vec<u8> = text::bytes_of(target.as_str());
                data.len() as u64
            },
            _ => 0,
        }
    }

    fn node_mode(&self, node: usize) -> (r: u32)
        requires
            node < self@.nodes.len(),
        ensures
            r == self@.node_mode(node),
    {
        let kind: u32 = match &self.nodes[node].kind {
            NodeKind::Directory(_) => 0x4000,
            NodeKind::Symlink(_) => 0xa000,
            NodeKind::File(_) => 0x8000,
            NodeKind::Command => 0x8000,
            NodeKind::Special => 0,
        };
        kind | self.nodes[node].mode
    }

    fn resize(&mut self, node: usize, size: usize) -> (r: Result<(), u32>)
        requires
            old(self)@.valid(),
            node < old(self)@.nodes.len(),
        ensures
            match r {
                Ok(_) => old(self)@.resized(node, size as nat) == Ok::<FsModel, u32>(final(self)@),
                Err(errno) => old(self)@.resized(node, size as nat) == Err::<FsModel, u32>(errno)
                    && final(self)@ == old(self)@,
            },
            final(self)@.valid(),
    {
        if size > MAX_FILE {
            return Err(EFBIG);
        }
        let mut local: Vec<u8> = Vec::new();
        match &self.nodes[node].kind {
            NodeKind::File(FileData::Local(data)) => {
                local = bytes::copy_range(data.as_slice(), 0, data.len());
                assert(local@ =~= data@);
            },
            NodeKind::File(_) => {
                if size != 0 {
                    return Err(EIO);
                }
            },
            _ => {
                return Err(EISDIR);
            },
        }
        let ghost before = local@;
        local.resize(size, 0);
        assert(local@ =~= fitted(before, size as nat));
        assert(size == 0 ==> local@ =~= Seq::empty());
        self.set_kind(node, NodeKind::File(FileData::Local(local)));
        Ok(())
    }

    fn create_node(&mut self, parent: usize, name: String, mode: u32, kind: NodeKind) -> (r: Result<
        usize,
        u32,
    >)
        requires
            old(self)@.valid(),
            parent < old(self)@.nodes.len(),
            kind@ matches NodeKindModel::Directory(children) ==> children.len() == 0,
        ensures
            match r {
                Ok(index) => index == old(self)@.nodes.len() && old(self)@.created(
                    parent,
                    name@,
                    mode,
                    kind@,
                ) == Ok::<FsModel, u32>(final(self)@),
                Err(errno) => old(self)@.created(parent, name@, mode, kind@) == Err::<FsModel, u32>(
                    errno,
                ) && final(self)@ == old(self)@,
            },
            final(self)@.valid(),
            r is Ok ==> final(self)@.nodes.len() == old(self)@.nodes.len() + 1,
    {
        if !listing::valid_name(name.as_str()) {
            return Err(EINVAL);
        }
        let node: Node = Node {
            parent,
            name,
            mode: mode & 0xfff,
            uid: 0,
            gid: 0,
            mtime: 0,
            version: 0,
            kind,
        };
        self.add_node(parent, node)
    }
}

/// Numbers of eight bytes one after another.
pub open spec fn long_numbers(values: Seq<u64>) -> Seq<u8>
    decreases values.len(),
{
    if values.len() == 0 {
        Seq::empty()
    } else {
        long_numbers(values.drop_last()) + le(values.last() as nat, 8)
    }
}

fn put_numbers(out: &mut Vec<u8>, values: &[u64])
    ensures
        final(out)@ == old(out)@ + long_numbers(values@),
{
    let mut i: usize = 0;
    assert(values@.take(0) =~= Seq::empty());
    assert(out@ =~= old(out)@ + Seq::<u8>::empty());
    while i < values.len()
        invariant
            i <= values@.len(),
            out@ == old(out)@ + long_numbers(values@.take(i as int)),
        decreases values@.len() - i,
    {
        put(out, values[i], 8);
        assert(values@.take(i + 1).drop_last() =~= values@.take(i as int));
        assert(out@ =~= old(out)@ + long_numbers(values@.take(i + 1)));
        i = i + 1;
    }
    assert(values@.take(i as int) =~= values@);
}

/// The place of the entries of a directory that a reader sees from `i` on, with
/// `seen` before them: as many as fit. An entry has an identity, the number of
/// the next one, a type and a name.
pub open spec fn entries_from(
    fs: FsModel,
    children: Seq<(Seq<char>, usize)>,
    i: nat,
    room: nat,
    seen: Seq<u8>,
) -> Option<Seq<u8>>
    decreases children.len() - i,
{
    if i >= children.len() {
        Some(seen)
    } else {
        let node = children[i as int].1;
        let name = fs.nodes[node as int].name;
        let len = vstd::utf8::encode_utf8(name).len();
        if seen.len() + 24 + len > room {
            Some(seen)
        } else if len > 0xffff {
            None
        } else {
            let kind: nat = match fs.nodes[node as int].kind {
                NodeKindModel::Directory(_) => 4,
                NodeKindModel::Symlink(_) => 10,
                _ => 8,
            };
            entries_from(
                fs,
                children,
                i + 1,
                room,
                seen + fs.qid(node) + le(i + 1, 8) + le(kind, 1) + string_bytes(name),
            )
        }
    }
}

/// The result of a walk from a node over the names at `p`.
pub open spec fn walked(
    fs: FsModel,
    d: Seq<u8>,
    p: int,
    left: nat,
    node: usize,
    seen: Seq<usize>,
) -> Result<(usize, Seq<usize>, int), u32>
    decreases left,
{
    if left == 0 {
        Ok((node, seen, p))
    } else {
        match string_at(d, p) {
            None => Err(EPROTO),
            Some((name, next)) => {
                let found = if name == "."@ {
                    Ok(node)
                } else if name == ".."@ {
                    Ok(fs.nodes[node as int].parent)
                } else {
                    fs.child_node(node, name)
                };
                match found {
                    Ok(child) => walked(fs, d, next, (left - 1) as nat, child, seen.push(child)),
                    Err(errno) => if seen.len() == 0 {
                        Err(errno)
                    } else {
                        Ok((node, seen, next))
                    },
                }
            },
        }
    }
}

/// The identities of nodes one after another.
pub open spec fn qids(fs: FsModel, nodes: Seq<usize>) -> Seq<u8>
    decreases nodes.len(),
{
    if nodes.len() == 0 {
        Seq::empty()
    } else {
        qids(fs, nodes.drop_last()) + fs.qid(nodes.last())
    }
}

/// The part of some contents that a read gets.
pub open spec fn slice_of(data: Seq<u8>, offset: nat, count: nat, room: nat) -> Seq<u8> {
    let start = if offset < data.len() {
        offset
    } else {
        data.len()
    };
    let rest = (data.len() - start) as nat;
    let len = if count < rest {
        count
    } else {
        rest
    };
    let fit = if len < room {
        len
    } else {
        room
    };
    data.subrange(start as int, (start + fit) as int)
}

/// Contents after a write, with zeros in a gap.
pub open spec fn written(data: Seq<u8>, offset: nat, part: Seq<u8>) -> Seq<u8> {
    let end = offset + part.len();
    bytes::spliced(
        if end > data.len() {
            fitted(data, end)
        } else {
            data
        },
        offset as int,
        part,
    )
}

impl FsModel {
    /// Contents read at an offset.
    pub open spec fn reads(self, data: Seq<u8>, offset: nat, count: nat, end: int) -> Answer {
        if offset > usize::MAX {
            self.fails(EFBIG)
        } else {
            let part = slice_of(data, offset, count, (self.msize - 11) as nat);
            self.done(le(part.len(), 4) + part, end)
        }
    }

    /// Reads a file behind a fid.
    pub open spec fn read_file(self, number: u32, offset: nat, count: nat, end: int) -> Answer {
        let node = self.fids[number].node;
        match self.nodes[node as int].kind {
            NodeKindModel::File(DataModel::Remote { .. }) => Answer::Waits {
                fs: self.file_requested(node),
            },
            NodeKindModel::File(DataModel::Loading { .. }) => Answer::Waits { fs: self },
            NodeKindModel::File(DataModel::Local(data)) => self.reads(data, offset, count, end),
            NodeKindModel::Command => self.reads(
                if self.command_replies.contains_key(number) {
                    self.command_replies[number]
                } else {
                    Seq::empty()
                },
                offset,
                count,
                end,
            ),
            _ => self.fails(EISDIR),
        }
    }

    /// Writes to a file behind a fid; to its end if the fid says so.
    pub open spec fn write_file(self, number: u32, offset: nat, part: Seq<u8>, end: int) -> Answer {
        let fid = self.fids[number];
        let body = le(part.len(), 4);
        match self.nodes[fid.node as int].kind {
            NodeKindModel::Command => match self.commanded(number, part) {
                Ok(after) => after.done(body, end),
                Err(errno) => self.fails(errno),
            },
            NodeKindModel::File(DataModel::Remote { .. }) => Answer::Waits {
                fs: self.file_requested(fid.node),
            },
            NodeKindModel::File(DataModel::Loading { .. }) => Answer::Waits { fs: self },
            NodeKindModel::File(DataModel::Local(data)) => {
                let start = if fid.flags & 0x400 != 0 {
                    data.len()
                } else {
                    offset
                };
                if start + part.len() > MAX_FILE {
                    self.fails(EFBIG)
                } else {
                    let n = self.nodes[fid.node as int];
                    FsModel {
                        nodes: self.nodes.update(
                            fid.node as int,
                            NodeModel {
                                version: n.version.wrapping_add(1),
                                kind: NodeKindModel::File(
                                    DataModel::Local(written(data, start, part)),
                                ),
                                ..n
                            },
                        ),
                        ..self
                    }.done(body, end)
                }
            },
            _ => self.fails(EISDIR),
        }
    }

    /// Removes a name from a directory.
    pub open spec fn unlinks(self, parent: usize, name: Seq<char>, flags: u32, end: int) -> Answer {
        match self.child_node(parent, name) {
            Err(errno) => self.fails(errno),
            Ok(node) => {
                let kind = self.nodes[node as int].kind;
                if kind is Directory != (flags & 0x200 != 0) {
                    self.fails(
                        if kind is Directory {
                            EISDIR
                        } else {
                            ENOTDIR
                        },
                    )
                } else if kind matches NodeKindModel::Directory(inner) && inner.len() > 0 {
                    self.fails(ENOTEMPTY)
                } else {
                    self.without_name(parent, name).done(Seq::empty(), end)
                }
            },
        }
    }

    pub open spec fn without_name(self, parent: usize, name: Seq<char>) -> FsModel {
        self.with_kind(
            parent,
            NodeKindModel::Directory(
                crate::http_9p::without_child(
                    self.nodes[parent as int].kind->Directory_0,
                    name,
                ),
            ),
        )
    }

    /// Moves a node to another name. A target that is no directory is refused
    /// after the name is gone.
    pub open spec fn renames(
        self,
        from: usize,
        name: Seq<char>,
        to: usize,
        new_name: Seq<char>,
        end: int,
    ) -> Answer {
        if !listing::is_name(new_name) {
            self.fails(EINVAL)
        } else {
            match self.child_node(from, name) {
                Err(errno) => self.fails(errno),
                Ok(node) => if self.child_node(to, new_name) is Ok {
                    self.fails(EEXIST)
                } else {
                    let removed = self.without_name(from, name);
                    match removed.nodes[to as int].kind {
                        NodeKindModel::Directory(children) => {
                            let placed = removed.with_kind(
                                to,
                                NodeKindModel::Directory(
                                    crate::http_9p::with_child(children, new_name, node),
                                ),
                            );
                            FsModel {
                                nodes: placed.nodes.update(
                                    node as int,
                                    NodeModel {
                                        parent: to,
                                        name: new_name,
                                        ..placed.nodes[node as int]
                                    },
                                ),
                                ..placed
                            }.done(Seq::empty(), end)
                        },
                        _ => removed.fails(ENOTDIR),
                    }
                },
            }
        }
    }

    /// Changes the attributes of a node that a mask names.
    pub open spec fn set_attributes(
        self,
        node: usize,
        mask: u32,
        mode: u32,
        uid: u32,
        gid: u32,
        size: nat,
        mtime: u64,
        end: int,
    ) -> Answer {
        let n = self.nodes[node as int];
        let owned = FsModel {
            nodes: self.nodes.update(
                node as int,
                NodeModel {
                    mode: if mask & 1 != 0 {
                        mode & 0xfff
                    } else {
                        n.mode
                    },
                    uid: if mask & 2 != 0 {
                        uid
                    } else {
                        n.uid
                    },
                    gid: if mask & 4 != 0 {
                        gid
                    } else {
                        n.gid
                    },
                    ..n
                },
            ),
            ..self
        };
        let sized = if mask & 8 != 0 {
            owned.resized(node, size)
        } else {
            Ok(owned)
        };
        match sized {
            Err(errno) => owned.fails(errno),
            Ok(fs) => if mask & 0x20 != 0 {
                FsModel {
                    nodes: fs.nodes.update(
                        node as int,
                        NodeModel { mtime, ..fs.nodes[node as int] },
                    ),
                    ..fs
                }.done(Seq::empty(), end)
            } else {
                fs.done(Seq::empty(), end)
            },
        }
    }

    /// The attributes of a node.
    pub open spec fn attributes(self, node: usize, requested: nat) -> Seq<u8> {
        let n = self.nodes[node as int];
        let size = self.node_size(node);
        le(requested, 8) + self.qid(node) + le(self.node_mode(node) as nat, 4) + le(
            n.uid as nat,
            4,
        ) + le(n.gid as nat, 4) + long_numbers(
            seq![
                1u64,
                0,
                size as u64,
                4096,
                ((size + 511) / 512) as u64,
                n.mtime,
                0,
                n.mtime,
                0,
                n.mtime,
                0,
                0,
                0,
                0,
                n.version as u64,
            ],
        )
    }
}

impl FsModel {
    /// The fid at the start of a message's body.
    pub open spec fn first_fid(self, d: Seq<u8>) -> Result<u32, u32> {
        match field(d, 7, 4) {
            None => Err(EPROTO),
            Some(number) => if self.fids.contains_key(number as u32) {
                Ok(number as u32)
            } else {
                Err(EBADF)
            },
        }
    }

    pub open spec fn on_statfs(self, d: Seq<u8>) -> Answer {
        match self.first_fid(d) {
            Err(errno) => self.fails(errno),
            Ok(_) => self.done(
                le(0x0102_1997, 4) + le(4096, 4) + long_numbers(
                    seq![0x10_0000u64, 0x0f_0000, 0x0f_0000, 0x10_0000, 0x0f_0000, 1],
                ) + le(255, 4),
                11,
            ),
        }
    }

    pub open spec fn on_lopen(self, d: Seq<u8>) -> Answer {
        match (field(d, 7, 4), field(d, 11, 4)) {
            (Some(number), Some(flags)) => {
                let number = number as u32;
                let flags = flags as u32;
                if !self.fids.contains_key(number) {
                    self.fails(EBADF)
                } else {
                    let node = self.fids[number].node;
                    let emptied = if flags & 0x200 != 0 {
                        self.resized(node, 0)
                    } else {
                        Ok(self)
                    };
                    match emptied {
                        Err(errno) => self.fails(errno),
                        Ok(fs) => fs.with_fid(number, Fid { node, flags }).done(
                            fs.qid(node) + le((self.msize - 24) as nat, 4),
                            15,
                        ),
                    }
                }
            },
            _ => self.fails(EPROTO),
        }
    }

    pub open spec fn on_lcreate(self, d: Seq<u8>) -> Answer {
        match self.first_fid(d) {
            Err(errno) => self.fails(errno),
            Ok(number) => {
                let parent = self.fids[number].node;
                if self.nodes[parent as int].kind !is Directory {
                    self.fails(ENOTDIR)
                } else {
                    match string_at(d, 11) {
                        None => self.fails(EPROTO),
                        Some((name, p)) => match (
                            field(d, p, 4),
                            field(d, p + 4, 4),
                            field(d, p + 8, 4),
                        ) {
                            (Some(flags), Some(mode), Some(_)) => {
                                let node = self.nodes.len() as usize;
                                match self.created(
                                    parent,
                                    name,
                                    mode as u32,
                                    NodeKindModel::File(DataModel::Local(Seq::empty())),
                                ) {
                                    Err(errno) => self.fails(errno),
                                    Ok(fs) => fs.with_fid(
                                        number,
                                        Fid { node, flags: flags as u32 },
                                    ).done(
                                        fs.qid(node) + le((self.msize - 24) as nat, 4),
                                        p + 12,
                                    ),
                                }
                            },
                            _ => self.fails(EPROTO),
                        },
                    }
                }
            },
        }
    }

    /// The answer to a request that makes a node.
    pub open spec fn makes(
        self,
        parent: usize,
        name: Seq<char>,
        mode: u32,
        kind: NodeKindModel,
        end: int,
    ) -> Answer {
        match self.created(parent, name, mode, kind) {
            Err(errno) => self.fails(errno),
            Ok(fs) => fs.done(fs.qid(self.nodes.len() as usize), end),
        }
    }

    pub open spec fn on_symlink(self, d: Seq<u8>) -> Answer {
        match self.first_fid(d) {
            Err(errno) => self.fails(errno),
            Ok(number) => match string_at(d, 11) {
                None => self.fails(EPROTO),
                Some((name, p)) => match string_at(d, p) {
                    None => self.fails(EPROTO),
                    Some((target, q)) => if field(d, q, 4) is None {
                        self.fails(EPROTO)
                    } else {
                        self.makes(
                            self.fids[number].node,
                            name,
                            0x1ff,
                            NodeKindModel::Symlink(target),
                            q + 4,
                        )
                    },
                },
            },
        }
    }

    pub open spec fn on_mkdir(self, d: Seq<u8>) -> Answer {
        match self.first_fid(d) {
            Err(errno) => self.fails(errno),
            Ok(number) => match string_at(d, 11) {
                None => self.fails(EPROTO),
                Some((name, p)) => match (field(d, p, 4), field(d, p + 4, 4)) {
                    (Some(mode), Some(_)) => self.makes(
                        self.fids[number].node,
                        name,
                        mode as u32,
                        NodeKindModel::Directory(Seq::empty()),
                        p + 8,
                    ),
                    _ => self.fails(EPROTO),
                },
            },
        }
    }

    pub open spec fn on_readlink(self, d: Seq<u8>) -> Answer {
        match self.first_fid(d) {
            Err(errno) => self.fails(errno),
            Ok(number) => match self.nodes[self.fids[number].node as int].kind {
                NodeKindModel::Symlink(target) => if vstd::utf8::encode_utf8(target).len()
                    > 0xffff {
                    self.fails(EFBIG)
                } else {
                    self.done(string_bytes(target), 11)
                },
                _ => self.fails(EINVAL),
            },
        }
    }

    pub open spec fn on_getattr(self, d: Seq<u8>) -> Answer {
        match self.first_fid(d) {
            Err(errno) => self.fails(errno),
            Ok(number) => match field(d, 11, 8) {
                None => self.fails(EPROTO),
                Some(requested) => self.done(
                    self.attributes(self.fids[number].node, requested),
                    19,
                ),
            },
        }
    }

    pub open spec fn on_setattr(self, d: Seq<u8>) -> Answer {
        match self.first_fid(d) {
            Err(errno) => self.fails(errno),
            Ok(number) => match (
                field(d, 11, 4),
                field(d, 15, 4),
                field(d, 19, 4),
                field(d, 23, 4),
                field(d, 27, 8),
            ) {
                (Some(mask), Some(mode), Some(uid), Some(gid), Some(size)) => if size > usize::MAX {
                    self.fails(EFBIG)
                } else {
                    match (field(d, 51, 8), field(d, 59, 8)) {
                        (Some(mtime), Some(_)) => self.set_attributes(
                            self.fids[number].node,
                            mask as u32,
                            mode as u32,
                            uid as u32,
                            gid as u32,
                            size,
                            mtime as u64,
                            67,
                        ),
                        _ => self.fails(EPROTO),
                    }
                },
                _ => self.fails(EPROTO),
            },
        }
    }

    pub open spec fn on_readdir(self, d: Seq<u8>) -> Answer {
        match self.first_fid(d) {
            Err(errno) => self.fails(errno),
            Ok(number) => match (field(d, 11, 8), field(d, 19, 4)) {
                (Some(offset), _) if offset > usize::MAX => self.fails(EFBIG),
                (Some(offset), Some(count)) => match self.nodes[self.fids[number].node as int].kind {
                    NodeKindModel::Directory(children) => match entries_from(
                        self,
                        children,
                        offset,
                        count,
                        Seq::empty(),
                    ) {
                        None => self.fails(EFBIG),
                        Some(entries) => self.done(le(entries.len(), 4) + entries, 23),
                    },
                    _ => self.fails(ENOTDIR),
                },
                _ => self.fails(EPROTO),
            },
        }
    }

    pub open spec fn on_renameat(self, d: Seq<u8>) -> Answer {
        match self.first_fid(d) {
            Err(errno) => self.fails(errno),
            Ok(number) => match string_at(d, 11) {
                None => self.fails(EPROTO),
                Some((name, p)) => match field(d, p, 4) {
                    None => self.fails(EPROTO),
                    Some(target) => if !self.fids.contains_key(target as u32) {
                        self.fails(EBADF)
                    } else {
                        match string_at(d, p + 4) {
                            None => self.fails(EPROTO),
                            Some((new_name, q)) => self.renames(
                                self.fids[number].node,
                                name,
                                self.fids[target as u32].node,
                                new_name,
                                q,
                            ),
                        }
                    },
                },
            },
        }
    }

    pub open spec fn on_unlinkat(self, d: Seq<u8>) -> Answer {
        match self.first_fid(d) {
            Err(errno) => self.fails(errno),
            Ok(number) => match string_at(d, 11) {
                None => self.fails(EPROTO),
                Some((name, p)) => match field(d, p, 4) {
                    None => self.fails(EPROTO),
                    Some(flags) => self.unlinks(
                        self.fids[number].node,
                        name,
                        flags as u32,
                        p + 4,
                    ),
                },
            },
        }
    }

    pub open spec fn on_version(self, tag: u16, d: Seq<u8>) -> Answer {
        if tag != NOTAG {
            self.fails(EPROTO)
        } else {
            match (field(d, 7, 4), string_at(d, 11)) {
                (Some(requested), Some((version, end))) => if requested < 256 {
                    self.fails(EINVAL)
                } else {
                    let msize = if requested < MAX_MESSAGE {
                        requested as usize
                    } else {
                        MAX_MESSAGE
                    };
                    FsModel { msize, fids: Map::empty(), ..self }.done(
                        le(msize as nat, 4) + string_bytes(
                            if version == "9P2000.L"@ {
                                version
                            } else {
                                "unknown"@
                            },
                        ),
                        end,
                    )
                },
                _ => self.fails(EPROTO),
            }
        }
    }

    pub open spec fn on_attach(self, d: Seq<u8>) -> Answer {
        match (field(d, 7, 4), field(d, 11, 4), string_at(d, 15)) {
            (Some(number), Some(_), Some((_, p))) => match string_at(d, p) {
                None => self.fails(EPROTO),
                Some((_, q)) => if field(d, q, 4) is None {
                    self.fails(EPROTO)
                } else {
                    let after = self.with_fid(number as u32, Fid { node: 0, flags: 0 });
                    if self.fids.contains_key(number as u32) {
                        after.fails(EEXIST)
                    } else {
                        after.done(self.qid(0), q + 4)
                    }
                },
            },
            _ => self.fails(EPROTO),
        }
    }

    pub open spec fn on_walk(self, d: Seq<u8>) -> Answer {
        match (field(d, 7, 4), field(d, 11, 4), field(d, 15, 2)) {
            (Some(number), Some(new_number), Some(count)) => {
                let number = number as u32;
                let new_number = new_number as u32;
                if !self.fids.contains_key(number) {
                    self.fails(EBADF)
                } else if new_number != number && self.fids.contains_key(new_number) {
                    self.fails(EEXIST)
                } else {
                    match walked(self, d, 17, count, self.fids[number].node, Seq::empty()) {
                        Err(errno) => self.fails(errno),
                        Ok((node, seen, end)) => self.with_fid(
                            new_number,
                            Fid { node, flags: 0 },
                        ).done(le(seen.len(), 2) + qids(self, seen), end),
                    }
                }
            },
            _ => self.fails(EPROTO),
        }
    }

    pub open spec fn on_read(self, d: Seq<u8>) -> Answer {
        match self.first_fid(d) {
            Err(errno) => self.fails(errno),
            Ok(number) => match (field(d, 11, 8), field(d, 19, 4)) {
                (Some(offset), Some(count)) => self.read_file(number, offset, count, 23),
                _ => self.fails(EPROTO),
            },
        }
    }

    pub open spec fn on_write(self, d: Seq<u8>) -> Answer {
        match self.first_fid(d) {
            Err(errno) => self.fails(errno),
            Ok(number) => match (field(d, 11, 8), field(d, 19, 4)) {
                (Some(offset), _) if offset > usize::MAX => self.fails(EFBIG),
                (Some(offset), Some(count)) => if 23 + count > d.len() {
                    self.fails(EPROTO)
                } else {
                    self.write_file(number, offset, d.subrange(23, 23 + count as int), 23 + count as int)
                },
                _ => self.fails(EPROTO),
            },
        }
    }

    pub open spec fn on_clunk(self, d: Seq<u8>) -> Answer {
        match self.first_fid(d) {
            Err(errno) => self.fails(errno),
            Ok(number) => FsModel {
                fids: self.fids.remove(number),
                command_replies: self.command_replies.remove(number),
                ..self
            }.done(Seq::empty(), 11),
        }
    }

    pub open spec fn on_fsync(self, d: Seq<u8>) -> Answer {
        match self.first_fid(d) {
            Err(errno) => self.fails(errno),
            Ok(_) => if field(d, 11, 4) is None {
                self.fails(EPROTO)
            } else {
                self.done(Seq::empty(), 15)
            },
        }
    }

    /// Locks are always granted.
    pub open spec fn on_lock(self, d: Seq<u8>) -> Answer {
        match self.first_fid(d) {
            Err(errno) => self.fails(errno),
            Ok(_) => match string_at(d, 36) {
                Some((_, end)) => self.done(le(0, 1), end),
                None => self.fails(EPROTO),
            },
        }
    }

    /// No lock is ever held.
    pub open spec fn on_getlock(self, d: Seq<u8>) -> Answer {
        match self.first_fid(d) {
            Err(errno) => self.fails(errno),
            Ok(_) => match string_at(d, 32) {
                Some((_, end)) => self.done(
                    le(2, 1) + le(0, 8) + le(0, 8) + le(0, 4) + le(0, 2),
                    end,
                ),
                _ => self.fails(EPROTO),
            },
        }
    }

    pub open spec fn on_flush(self, d: Seq<u8>) -> Answer {
        if field(d, 7, 2) is None {
            self.fails(EPROTO)
        } else {
            self.done(Seq::empty(), 9)
        }
    }

    /// The answer to a message by its type.
    pub open spec fn handled(self, kind: u8, tag: u16, d: Seq<u8>) -> Answer {
        if kind == 8 {
            self.on_statfs(d)
        } else if kind == 12 {
            self.on_lopen(d)
        } else if kind == 14 {
            self.on_lcreate(d)
        } else if kind == 16 {
            self.on_symlink(d)
        } else if kind == 22 {
            self.on_readlink(d)
        } else if kind == 24 {
            self.on_getattr(d)
        } else if kind == 26 {
            self.on_setattr(d)
        } else if kind == 40 {
            self.on_readdir(d)
        } else if kind == 50 {
            self.on_fsync(d)
        } else if kind == 52 {
            self.on_lock(d)
        } else if kind == 54 {
            self.on_getlock(d)
        } else if kind == 72 {
            self.on_mkdir(d)
        } else if kind == 74 {
            self.on_renameat(d)
        } else if kind == 76 {
            self.on_unlinkat(d)
        } else if kind == 100 {
            self.on_version(tag, d)
        } else if kind == 104 {
            self.on_attach(d)
        } else if kind == 108 {
            self.on_flush(d)
        } else if kind == 110 {
            self.on_walk(d)
        } else if kind == 116 {
            self.on_read(d)
        } else if kind == 118 {
            self.on_write(d)
        } else if kind == 120 {
            self.on_clunk(d)
        } else {
            self.fails(EOPNOTSUPP)
        }
    }

    /// The filesystem after a request, and what became of the request. A
    /// request that is malformed as a whole is an error of the device.
    pub open spec fn transacted(self, d: Seq<u8>) -> (Result<StatusModel, DeviceError>, FsModel) {
        if d.len() < 7 || bytes::le_value(d.subrange(0, 4)) != d.len() || d.len() > self.msize {
            (Err(DeviceError::InvalidRequest), self)
        } else if !self.initialized {
            (Ok(StatusModel::Pending), self)
        } else {
            let kind = d[4];
            let tag = bytes::le_value(d.subrange(5, 7)) as u16;
            match self.handled(kind, tag, d) {
                Answer::Waits { fs } => (Ok(StatusModel::Pending), fs),
                Answer::Fails { fs, errno } => (
                    Ok(StatusModel::Complete(message(RLERROR, tag, le(errno as nat, 4)))),
                    fs,
                ),
                Answer::Done { fs, body, end } => if 7 + body.len() > self.msize {
                    (
                        Ok(StatusModel::Complete(message(RLERROR, tag, le(EFBIG as nat, 4)))),
                        fs,
                    )
                } else if end != d.len() {
                    (Err(DeviceError::InvalidRequest), fs)
                } else {
                    (Ok(StatusModel::Complete(message(kind.wrapping_add(1), tag, body))), fs)
                },
            }
        }
    }
}

/// A whole message.
pub open spec fn message(kind: u8, tag: u16, body: Seq<u8>) -> Seq<u8> {
    le(7 + body.len(), 4) + le(kind as nat, 1) + le(tag as nat, 2) + body
}

impl HttpNineP {
    fn first_fid_of(&self, r: &mut Reader<'_>) -> (out: Result<u32, u32>)
        requires
            old(r).offset == 7,
            old(r).data@.len() >= 7,
        ensures
            out == self@.first_fid(old(r).data@),
            final(r).data == old(r).data,
            out is Ok ==> final(r).offset == 11 && final(r).data@.len() >= 11,
    {
        let number: u32 = match r.number(4) {
            Some(number) => number as u32,
            None => {
                return Err(EPROTO);
            },
        };
        match self.fid(number) {
            Some(_) => Ok(number),
            None => Err(EBADF),
        }
    }

    fn answer_statfs(&mut self, r: &mut Reader<'_>) -> (out: Reply)
        requires
            old(self)@.valid(),
            old(r).offset == 7,
            old(r).data@.len() >= 7,
        ensures
            shown(old(self)@.on_statfs(old(r).data@), out, final(self)@, final(r).offset as int),
            final(self)@.valid(),
    {
        match self.first_fid_of(r) {
            Ok(_) => {},
            Err(errno) => {
                return Err(errno);
            },
        }
        let values: [u64; 6] = [0x10_0000, 0x0f_0000, 0x0f_0000, 0x10_0000, 0x0f_0000, 1];
        let mut body: Vec<u8> = Vec::new();
        put(&mut body, 0x0102_1997, 4);
        put(&mut body, 4096, 4);
        put_numbers(&mut body, values.as_slice());
        put(&mut body, 255, 4);
        proof {
            let sizes = seq![0x10_0000u64, 0x0f_0000, 0x0f_0000, 0x10_0000, 0x0f_0000, 1];
            assert(values@ =~= sizes);
            assert(body@ =~= le(0x0102_1997, 4) + le(4096, 4) + long_numbers(sizes) + le(255, 4));
        }
        Ok(Some(body))
    }

    fn answer_lopen(&mut self, r: &mut Reader<'_>) -> (out: Reply)
        requires
            old(self)@.valid(),
            old(r).offset == 7,
            old(r).data@.len() >= 7,
        ensures
            shown(old(self)@.on_lopen(old(r).data@), out, final(self)@, final(r).offset as int),
            final(self)@.valid(),
    {
        let (number, flags) = match (r.number(4), r.number(4)) {
            (Some(number), Some(flags)) => (number as u32, flags as u32),
            _ => {
                return Err(EPROTO);
            },
        };
        let node: usize = match self.fid(number) {
            Some(fid) => fid.node,
            None => {
                return Err(EBADF);
            },
        };
        if flags & 0x200 != 0 {
            match self.resize(node, 0) {
                Ok(()) => {},
                Err(errno) => {
                    return Err(errno);
                },
            }
        }
        self.fids.insert(number, Fid { node, flags });
        let mut body: Vec<u8> = Vec::new();
        self.put_qid(&mut body, node);
        put(&mut body, (self.msize - 24) as u64, 4);
        assert(body@ =~= self@.qid(node) + le((self@.msize - 24) as nat, 4));
        Ok(Some(body))
    }

    fn answer_lcreate(&mut self, r: &mut Reader<'_>) -> (out: Reply)
        requires
            old(self)@.valid(),
            old(r).offset == 7,
            old(r).data@.len() >= 7,
        ensures
            shown(old(self)@.on_lcreate(old(r).data@), out, final(self)@, final(r).offset as int),
            final(self)@.valid(),
    {
        let number: u32 = match self.first_fid_of(r) {
            Ok(number) => number,
            Err(errno) => {
                return Err(errno);
            },
        };
        let parent: usize = match self.fid(number) {
            Some(fid) => fid.node,
            None => {
                return Err(EBADF);
            },
        };
        match &self.nodes[parent].kind {
            NodeKind::Directory(_) => {},
            _ => {
                return Err(ENOTDIR);
            },
        }
        let name: String = match r.string() {
            Some(name) => name,
            None => {
                return Err(EPROTO);
            },
        };
        let (flags, mode) = match (r.number(4), r.number(4), r.number(4)) {
            (Some(flags), Some(mode), Some(_)) => (flags as u32, mode as u32),
            _ => {
                return Err(EPROTO);
            },
        };
        let none: Vec<u8> = Vec::new();
        assert(none@ =~= Seq::empty());
        let node: usize = match self.create_node(
            parent,
            name,
            mode,
            NodeKind::File(FileData::Local(none)),
        ) {
            Ok(node) => node,
            Err(errno) => {
                return Err(errno);
            },
        };
        self.fids.insert(number, Fid { node, flags });
        let mut body: Vec<u8> = Vec::new();
        self.put_qid(&mut body, node);
        put(&mut body, (self.msize - 24) as u64, 4);
        assert(body@ =~= self@.qid(node) + le((self@.msize - 24) as nat, 4));
        Ok(Some(body))
    }

    fn make(&mut self, parent: usize, name: String, mode: u32, kind: NodeKind, end: Ghost<int>) -> (out: Reply)
        requires
            old(self)@.valid(),
            parent < old(self)@.nodes.len(),
            kind@ matches NodeKindModel::Directory(children) ==> children.len() == 0,
        ensures
            shown(
                old(self)@.makes(parent, name@, mode, kind@, end@),
                out,
                final(self)@,
                end@,
            ),
            final(self)@.valid(),
    {
        match self.create_node(parent, name, mode, kind) {
            Ok(node) => {
                let mut body: Vec<u8> = Vec::new();
                self.put_qid(&mut body, node);
                assert(body@ =~= self@.qid(node));
                Ok(Some(body))
            },
            Err(errno) => Err(errno),
        }
    }

    fn answer_symlink(&mut self, r: &mut Reader<'_>) -> (out: Reply)
        requires
            old(self)@.valid(),
            old(r).offset == 7,
            old(r).data@.len() >= 7,
        ensures
            shown(old(self)@.on_symlink(old(r).data@), out, final(self)@, final(r).offset as int),
            final(self)@.valid(),
    {
        let number: u32 = match self.first_fid_of(r) {
            Ok(number) => number,
            Err(errno) => {
                return Err(errno);
            },
        };
        let parent: usize = match self.fid(number) {
            Some(fid) => fid.node,
            None => {
                return Err(EBADF);
            },
        };
        let name: String = match r.string() {
            Some(name) => name,
            None => {
                return Err(EPROTO);
            },
        };
        let target: String = match r.string() {
            Some(target) => target,
            None => {
                return Err(EPROTO);
            },
        };
        match r.number(4) {
            Some(_) => {},
            None => {
                return Err(EPROTO);
            },
        }
        self.make(parent, name, 0x1ff, NodeKind::Symlink(target), Ghost(r.offset as int))
    }

    fn answer_mkdir(&mut self, r: &mut Reader<'_>) -> (out: Reply)
        requires
            old(self)@.valid(),
            old(r).offset == 7,
            old(r).data@.len() >= 7,
        ensures
            shown(old(self)@.on_mkdir(old(r).data@), out, final(self)@, final(r).offset as int),
            final(self)@.valid(),
    {
        let number: u32 = match self.first_fid_of(r) {
            Ok(number) => number,
            Err(errno) => {
                return Err(errno);
            },
        };
        let parent: usize = match self.fid(number) {
            Some(fid) => fid.node,
            None => {
                return Err(EBADF);
            },
        };
        let name: String = match r.string() {
            Some(name) => name,
            None => {
                return Err(EPROTO);
            },
        };
        let mode: u32 = match (r.number(4), r.number(4)) {
            (Some(mode), Some(_)) => mode as u32,
            _ => {
                return Err(EPROTO);
            },
        };
        let none: Vec<Child> = Vec::new();
        assert(crate::http_9p::child_models(none@) =~= Seq::empty());
        self.make(parent, name, mode, NodeKind::Directory(none), Ghost(r.offset as int))
    }

    fn answer_readlink(&mut self, r: &mut Reader<'_>) -> (out: Reply)
        requires
            old(self)@.valid(),
            old(r).offset == 7,
            old(r).data@.len() >= 7,
        ensures
            shown(old(self)@.on_readlink(old(r).data@), out, final(self)@, final(r).offset as int),
            final(self)@.valid(),
    {
        let number: u32 = match self.first_fid_of(r) {
            Ok(number) => number,
            Err(errno) => {
                return Err(errno);
            },
        };
        let node: usize = match self.fid(number) {
            Some(fid) => fid.node,
            None => {
                return Err(EBADF);
            },
        };
        match &self.nodes[node].kind {
            NodeKind::Symlink(target) => {
                let mut body: Vec<u8> = Vec::new();
                if put_string(&mut body, target.as_str()) {
                    assert(body@ =~= string_bytes(target@));
                    Ok(Some(body))
                } else {
                    Err(EFBIG)
                }
            },
            _ => Err(EINVAL),
        }
    }

    fn answer_getattr(&mut self, r: &mut Reader<'_>) -> (out: Reply)
        requires
            old(self)@.valid(),
            old(r).offset == 7,
            old(r).data@.len() >= 7,
        ensures
            shown(old(self)@.on_getattr(old(r).data@), out, final(self)@, final(r).offset as int),
            final(self)@.valid(),
    {
        let number: u32 = match self.first_fid_of(r) {
            Ok(number) => number,
            Err(errno) => {
                return Err(errno);
            },
        };
        let node: usize = match self.fid(number) {
            Some(fid) => fid.node,
            None => {
                return Err(EBADF);
            },
        };
        let requested: u64 = match r.number(8) {
            Some(requested) => requested,
            None => {
                return Err(EPROTO);
            },
        };
        let mut body: Vec<u8> = Vec::new();
        put(&mut body, requested, 8);
        self.put_qid(&mut body, node);
        put(&mut body, self.node_mode(node) as u64, 4);
        put(&mut body, self.nodes[node].uid as u64, 4);
        put(&mut body, self.nodes[node].gid as u64, 4);
        let size: u64 = self.size(node);
        let blocks: u64 = if size % 512 == 0 {
            size / 512
        } else {
            size / 512 + 1
        };
        let mtime: u64 = self.nodes[node].mtime;
        let version: u64 = self.nodes[node].version as u64;
        let values: [u64; 15] = [
            1, 0, size, 4096, blocks, mtime, 0, mtime, 0, mtime, 0, 0, 0, 0, version,
        ];
        put_numbers(&mut body, values.as_slice());
        proof {
            let listed = seq![
                1u64,
                0,
                size,
                4096,
                blocks,
                mtime,
                0,
                mtime,
                0,
                mtime,
                0,
                0,
                0,
                0,
                version,
            ];
            assert(values@ =~= listed);
            assert(blocks == (size + 511) / 512);
            assert(body@ =~= self@.attributes(node, requested as nat));
        }
        Ok(Some(body))
    }
}

impl HttpNineP {
    fn answer_setattr(&mut self, r: &mut Reader<'_>) -> (out: Reply)
        requires
            old(self)@.valid(),
            old(self)@.initialized,
            old(r).offset == 7,
            old(r).data@.len() >= 7,
        ensures
            shown(old(self)@.on_setattr(old(r).data@), out, final(self)@, final(r).offset as int),
            final(self)@.valid(),
    {
        let number: u32 = match self.first_fid_of(r) {
            Ok(number) => number,
            Err(errno) => {
                return Err(errno);
            },
        };
        let node: usize = match self.fid(number) {
            Some(fid) => fid.node,
            None => {
                return Err(EBADF);
            },
        };
        let (mask, mode, uid, gid, size) = match (
            r.number(4),
            r.number(4),
            r.number(4),
            r.number(4),
            r.number(8),
        ) {
            (Some(mask), Some(mode), Some(uid), Some(gid), Some(size)) => (
                mask as u32,
                mode as u32,
                uid as u32,
                gid as u32,
                size,
            ),
            _ => {
                return Err(EPROTO);
            },
        };
        if size > usize::MAX as u64 {
            return Err(EFBIG);
        }
        let mtime: u64 = match (r.number(8), r.number(8), r.number(8), r.number(8)) {
            (Some(_), Some(_), Some(mtime), Some(_)) => mtime,
            _ => {
                return Err(EPROTO);
            },
        };
        if mask & 1 != 0 {
            self.nodes[node].mode = mode & 0xfff;
        }
        if mask & 2 != 0 {
            self.nodes[node].uid = uid;
        }
        if mask & 4 != 0 {
            self.nodes[node].gid = gid;
        }
        let ghost owned = self@;
        proof {
            assert(owned.nodes =~= old(self)@.nodes.update(node as int, owned.nodes[node as int]));
            lemma_attributes_keep_valid(old(self)@, node, owned.nodes[node as int]);
        }
        if mask & 8 != 0 {
            match self.resize(node, size as usize) {
                Ok(()) => {},
                Err(errno) => {
                    return Err(errno);
                },
            }
        }
        if mask & 0x20 != 0 {
            let ghost sized = self@;
            self.nodes[node].mtime = mtime;
            proof {
                assert(self@.nodes =~= sized.nodes.update(node as int, self@.nodes[node as int]));
                lemma_attributes_keep_valid(sized, node, self@.nodes[node as int]);
            }
        }
        let body: Vec<u8> = Vec::new();
        assert(body@ =~= Seq::empty());
        Ok(Some(body))
    }

    fn answer_readdir(&mut self, r: &mut Reader<'_>) -> (out: Reply)
        requires
            old(self)@.valid(),
            old(self)@.initialized,
            old(r).offset == 7,
            old(r).data@.len() >= 7,
        ensures
            shown(old(self)@.on_readdir(old(r).data@), out, final(self)@, final(r).offset as int),
            final(self)@.valid(),
    {
        let number: u32 = match self.first_fid_of(r) {
            Ok(number) => number,
            Err(errno) => {
                return Err(errno);
            },
        };
        let node: usize = match self.fid(number) {
            Some(fid) => fid.node,
            None => {
                return Err(EBADF);
            },
        };
        let offset: u64 = match r.number(8) {
            Some(offset) => offset,
            None => {
                return Err(EPROTO);
            },
        };
        if offset > usize::MAX as u64 {
            return Err(EFBIG);
        }
        let room: usize = match r.number(4) {
            Some(count) => {
                proof {
                    bytes::lemma_pow256();
                }
                count as usize
            },
            None => {
                return Err(EPROTO);
            },
        };
        match &self.nodes[node].kind {
            NodeKind::Directory(children) => {
                proof {
                    let models = crate::http_9p::child_models(children@);
                    assert(crate::http_9p::sound_node(self@.nodes[node as int], self@.nodes.len()));
                    assert forall|i: int| 0 <= i < children@.len() implies (
                    #[trigger] children@[i]).node < self@.nodes.len() by {
                        assert(models[i].1 == children@[i].node);
                    }
                }
                match self.entries(children, offset as usize, room) {
                    Some(mut entries) => {
                        let ghost model = entries@;
                        let mut body: Vec<u8> = Vec::new();
                        put(&mut body, entries.len() as u64, 4);
                        body.append(&mut entries);
                        assert(body@ =~= le(model.len(), 4) + model);
                        Ok(Some(body))
                    },
                    None => Err(EFBIG),
                }
            },
            _ => Err(ENOTDIR),
        }
    }

    /// The entries of a directory from an index on, as many as fit.
    fn entries(&self, children: &Vec<Child>, from: usize, room: usize) -> (r: Option<Vec<u8>>)
        requires
            forall|i: int| 0 <= i < children@.len() ==> (#[trigger] children@[i]).node
                < self@.nodes.len(),
        ensures
            match r {
                Some(data) => entries_from(
                    self@,
                    crate::http_9p::child_models(children@),
                    from as nat,
                    room as nat,
                    Seq::empty(),
                ) == Some(data@),
                None => entries_from(
                    self@,
                    crate::http_9p::child_models(children@),
                    from as nat,
                    room as nat,
                    Seq::empty(),
                ) is None,
            },
    {
        let ghost models = crate::http_9p::child_models(children@);
        let mut out: Vec<u8> = Vec::new();
        let mut i: usize = from;
        assert(out@ =~= Seq::empty());
        while i < children.len()
            invariant
                models == crate::http_9p::child_models(children@),
                forall|i: int| 0 <= i < children@.len() ==> (#[trigger] children@[i]).node
                    < self@.nodes.len(),
                entries_from(self@, models, i as nat, room as nat, out@) == entries_from(
                    self@,
                    models,
                    from as nat,
                    room as nat,
                    Seq::empty(),
                ),
            decreases children@.len() - i,
        {
            assert(models[i as int] == (children@[i as int].name@, children@[i as int].node));
            let child: usize = children[i].node;
            let data: Vec<u8> = text::bytes_of(self.nodes[child].name.as_str());
            if out.len() > room || room - out.len() < 24 || room - out.len() - 24 < data.len() {
                return Some(out);
            }
            let kind: u64 = match &self.nodes[child].kind {
                NodeKind::Directory(_) => 4,
                NodeKind::Symlink(_) => 10,
                _ => 8,
            };
            let ghost before = out@;
            self.put_qid(&mut out, child);
            put(&mut out, i as u64 + 1, 8);
            put(&mut out, kind, 1);
            if !put_string(&mut out, self.nodes[child].name.as_str()) {
                return None;
            }
            assert(out@ =~= before + self@.qid(child) + le((i + 1) as nat, 8) + le(kind as nat, 1)
                + string_bytes(self@.nodes[child as int].name));
            i = i + 1;
        }
        Some(out)
    }

    fn answer_unlinkat(&mut self, r: &mut Reader<'_>) -> (out: Reply)
        requires
            old(self)@.valid(),
            old(self)@.initialized,
            old(r).offset == 7,
            old(r).data@.len() >= 7,
        ensures
            shown(old(self)@.on_unlinkat(old(r).data@), out, final(self)@, final(r).offset as int),
            final(self)@.valid(),
    {
        let number: u32 = match self.first_fid_of(r) {
            Ok(number) => number,
            Err(errno) => {
                return Err(errno);
            },
        };
        let parent: usize = match self.fid(number) {
            Some(fid) => fid.node,
            None => {
                return Err(EBADF);
            },
        };
        let name: String = match r.string() {
            Some(name) => name,
            None => {
                return Err(EPROTO);
            },
        };
        let flags: u32 = match r.number(4) {
            Some(flags) => flags as u32,
            None => {
                return Err(EPROTO);
            },
        };
        let node: usize = match self.child(parent, name.as_str()) {
            Ok(node) => node,
            Err(errno) => {
                return Err(errno);
            },
        };
        proof {
            lemma_child_exists(self@, parent, name@);
        }
        let (is_directory, entries) = match &self.nodes[node].kind {
            NodeKind::Directory(children) => (true, children.len()),
            _ => (false, 0),
        };
        if is_directory != (flags & 0x200 != 0) {
            return Err(
                if is_directory {
                    EISDIR
                } else {
                    ENOTDIR
                },
            );
        }
        if entries > 0 {
            return Err(ENOTEMPTY);
        }
        self.remove_name(parent, name.as_str());
        let body: Vec<u8> = Vec::new();
        assert(body@ =~= Seq::empty());
        Ok(Some(body))
    }

    /// Removes a name from a directory.
    fn remove_name(&mut self, parent: usize, name: &str)
        requires
            old(self)@.valid(),
            parent < old(self)@.nodes.len(),
            old(self)@.nodes[parent as int].kind is Directory,
        ensures
            final(self)@ == old(self)@.without_name(parent, name@),
            final(self)@.valid(),
    {
        let ghost before = self@;
        match &mut self.nodes[parent].kind {
            NodeKind::Directory(children) => {
                let ghost old_children = children@;
                let place: usize = crate::http_9p::find_name(children, name);
                if place < children.len() {
                    children.remove(place);
                }
                assert(crate::http_9p::child_models(children@) =~= crate::http_9p::without_child(
                    crate::http_9p::child_models(old_children),
                    name@,
                ));
            },
            _ => {},
        }
        proof {
            assert(self@.nodes =~= before.without_name(parent, name@).nodes);
            let children = before.nodes[parent as int].kind->Directory_0;
            assert(crate::http_9p::sound_node(before.nodes[parent as int], before.nodes.len()));
            crate::http_9p::lemma_without_child_in_order(children, name@);
            crate::http_9p::lemma_name_place(children, name@, 0);
            let fewer = crate::http_9p::without_child(children, name@);
            assert forall|i: int| 0 <= i < fewer.len() implies (#[trigger] fewer[i]).1
                < before.nodes.len() by {
                let p = crate::http_9p::name_place(children, name@, 0) as int;
                if p < children.len() && i >= p {
                    assert(fewer[i] == children[i + 1]);
                } else {
                    assert(fewer[i] == children[i]);
                }
            }
            lemma_kind_keeps_valid(before, parent, NodeKindModel::Directory(fewer));
        }
    }

    fn answer_renameat(&mut self, r: &mut Reader<'_>) -> (out: Reply)
        requires
            old(self)@.valid(),
            old(self)@.initialized,
            old(r).offset == 7,
            old(r).data@.len() >= 7,
        ensures
            shown(old(self)@.on_renameat(old(r).data@), out, final(self)@, final(r).offset as int),
            final(self)@.valid(),
    {
        let number: u32 = match self.first_fid_of(r) {
            Ok(number) => number,
            Err(errno) => {
                return Err(errno);
            },
        };
        let from: usize = match self.fid(number) {
            Some(fid) => fid.node,
            None => {
                return Err(EBADF);
            },
        };
        let name: String = match r.string() {
            Some(name) => name,
            None => {
                return Err(EPROTO);
            },
        };
        let target: u32 = match r.number(4) {
            Some(target) => target as u32,
            None => {
                return Err(EPROTO);
            },
        };
        let to: usize = match self.fid(target) {
            Some(fid) => fid.node,
            None => {
                return Err(EBADF);
            },
        };
        let new_name: String = match r.string() {
            Some(name) => name,
            None => {
                return Err(EPROTO);
            },
        };
        if !listing::valid_name(new_name.as_str()) {
            return Err(EINVAL);
        }
        let node: usize = match self.child(from, name.as_str()) {
            Ok(node) => node,
            Err(errno) => {
                return Err(errno);
            },
        };
        proof {
            lemma_child_exists(self@, from, name@);
        }
        match self.child(to, new_name.as_str()) {
            Ok(_) => {
                return Err(EEXIST);
            },
            Err(_) => {},
        }
        let ghost before = self@;
        self.remove_name(from, name.as_str());
        let ghost removed = self@;
        proof {
            if from == to {
                lemma_other_name_stays_missing(
                    before.nodes[from as int].kind->Directory_0,
                    name@,
                    new_name@,
                );
            }
        }
        match &mut self.nodes[to].kind {
            NodeKind::Directory(children) => {
                let ghost old_children = children@;
                let place: usize = crate::http_9p::find_place(children, new_name.as_str());
                let child: Child = Child {
                    name: crate::http_9p::copy_text(new_name.as_str()),
                    node,
                };
                children.insert(place, child);
                assert(crate::http_9p::child_models(children@) =~= crate::http_9p::with_child(
                    crate::http_9p::child_models(old_children),
                    new_name@,
                    node,
                ));
            },
            _ => {
                assert(self@.nodes =~= removed.nodes);
                return Err(ENOTDIR);
            },
        }
        let ghost placed = self@;
        proof {
            let children = removed.nodes[to as int].kind->Directory_0;
            let grown = crate::http_9p::with_child(children, new_name@, node);
            assert(placed.nodes =~= removed.with_kind(to, NodeKindModel::Directory(grown)).nodes);
            assert(crate::http_9p::sound_node(removed.nodes[to as int], removed.nodes.len()));
            crate::http_9p::lemma_with_child_in_order(children, new_name@, node);
            crate::http_9p::lemma_sorted_place(children, new_name@, 0);
            assert forall|k: int| 0 <= k < grown.len() implies (#[trigger] grown[k]).1
                < removed.nodes.len() by {
                let p = crate::http_9p::sorted_place(children, new_name@, 0) as int;
                if k < p {
                    assert(grown[k] == children[k]);
                } else if k > p {
                    assert(grown[k] == children[k - 1]);
                }
            }
            lemma_kind_keeps_valid(removed, to, NodeKindModel::Directory(grown));
        }
        self.nodes[node].parent = to;
        self.nodes[node].name = new_name;
        proof {
            assert(self@.nodes =~= placed.nodes.update(node as int, self@.nodes[node as int]));
            lemma_attributes_keep_valid(placed, node, self@.nodes[node as int]);
        }
        let body: Vec<u8> = Vec::new();
        assert(body@ =~= Seq::empty());
        Ok(Some(body))
    }
}

/// A name that is missing stays missing when another is removed.
proof fn lemma_other_name_stays_missing(
    children: Seq<(Seq<char>, usize)>,
    name: Seq<char>,
    other: Seq<char>,
)
    requires
        crate::http_9p::child_of(children, other) is None,
    ensures
        crate::http_9p::child_of(crate::http_9p::without_child(children, name), other) is None,
{
    let fewer = crate::http_9p::without_child(children, name);
    let p = crate::http_9p::name_place(children, name, 0) as int;
    let q = crate::http_9p::name_place(fewer, other, 0) as int;
    crate::http_9p::lemma_name_place(children, name, 0);
    crate::http_9p::lemma_name_place(children, other, 0);
    crate::http_9p::lemma_name_place(fewer, other, 0);
    if q < fewer.len() {
        if p < children.len() && q >= p {
            assert(fewer[q] == children[q + 1]);
        } else {
            assert(fewer[q] == children[q]);
        }
        assert(false);
    }
}

/// A found name belongs to a node.
pub proof fn lemma_child_exists(fs: FsModel, parent: usize, name: Seq<char>)
    requires
        fs.valid(),
        parent < fs.nodes.len(),
    ensures
        fs.child_node(parent, name) matches Ok(node) ==> node < fs.nodes.len()
            && fs.nodes[parent as int].kind is Directory,
{
    if fs.child_node(parent, name) is Ok {
        assert(crate::http_9p::sound_node(fs.nodes[parent as int], fs.nodes.len()));
        crate::http_9p::lemma_name_place(fs.nodes[parent as int].kind->Directory_0, name, 0);
    }
}

/// A change of attributes keeps a filesystem valid.
proof fn lemma_attributes_keep_valid(fs: FsModel, node: usize, n: NodeModel)
    requires
        fs.valid(),
        node < fs.nodes.len(),
        n.kind == fs.nodes[node as int].kind,
        n.parent < fs.nodes.len(),
    ensures
        (FsModel { nodes: fs.nodes.update(node as int, n), ..fs }).valid(),
{
    let after = FsModel { nodes: fs.nodes.update(node as int, n), ..fs };
    assert forall|i: int| 0 <= i < after.nodes.len() implies crate::http_9p::sound_node(
        #[trigger] after.nodes[i],
        after.nodes.len(),
    ) by {
        assert(crate::http_9p::sound_node(fs.nodes[i], fs.nodes.len()));
    }
}

/// Other sound contents of a directory keep a filesystem valid.
proof fn lemma_kind_keeps_valid(fs: FsModel, node: usize, kind: NodeKindModel)
    requires
        fs.valid(),
        node < fs.nodes.len(),
        kind is Directory,
        crate::http_9p::in_order(kind->Directory_0),
        forall|i: int| 0 <= i < kind->Directory_0.len() ==> (#[trigger] kind->Directory_0[i]).1
            < fs.nodes.len(),
    ensures
        fs.with_kind(node, kind).valid(),
{
    let after = fs.with_kind(node, kind);
    assert forall|i: int| 0 <= i < after.nodes.len() implies crate::http_9p::sound_node(
        #[trigger] after.nodes[i],
        after.nodes.len(),
    ) by {
        assert(crate::http_9p::sound_node(fs.nodes[i], fs.nodes.len()));
    }
}

impl HttpNineP {
    fn answer_version(&mut self, tag: u16, r: &mut Reader<'_>) -> (out: Reply)
        requires
            old(self)@.valid(),
            old(self)@.initialized,
            old(r).offset == 7,
            old(r).data@.len() >= 7,
        ensures
            shown(
                old(self)@.on_version(tag, old(r).data@),
                out,
                final(self)@,
                final(r).offset as int,
            ),
            final(self)@.valid(),
    {
        if tag != NOTAG {
            return Err(EPROTO);
        }
        let requested: u64 = match r.number(4) {
            Some(requested) => requested,
            None => {
                return Err(EPROTO);
            },
        };
        let version: String = match r.string() {
            Some(version) => version,
            None => {
                return Err(EPROTO);
            },
        };
        if requested < 256 {
            return Err(EINVAL);
        }
        self.msize = if requested < 65536 {
            requested as usize
        } else {
            MAX_MESSAGE
        };
        self.fids.clear();
        assert(self.fids@ =~= Map::empty());
        let mut body: Vec<u8> = Vec::new();
        put(&mut body, self.msize as u64, 4);
        let known: bool = text::same(version.as_str(), "9P2000.L");
        let name: &str = if known {
            "9P2000.L"
        } else {
            "unknown"
        };
        let _ = put_string(&mut body, name);
        proof {
            lemma_version_names();
            assert(body@ =~= le(self@.msize as nat, 4) + string_bytes(name@));
        }
        Ok(Some(body))
    }

    fn answer_attach(&mut self, r: &mut Reader<'_>) -> (out: Reply)
        requires
            old(self)@.valid(),
            old(self)@.initialized,
            old(r).offset == 7,
            old(r).data@.len() >= 7,
        ensures
            shown(old(self)@.on_attach(old(r).data@), out, final(self)@, final(r).offset as int),
            final(self)@.valid(),
    {
        let number: u32 = match (r.number(4), r.number(4)) {
            (Some(number), Some(_)) => number as u32,
            _ => {
                return Err(EPROTO);
            },
        };
        match r.string() {
            Some(_) => {},
            None => {
                return Err(EPROTO);
            },
        }
        match r.string() {
            Some(_) => {},
            None => {
                return Err(EPROTO);
            },
        }
        match r.number(4) {
            Some(_) => {},
            None => {
                return Err(EPROTO);
            },
        }
        let known: bool = self.fid(number).is_some();
        self.fids.insert(number, Fid { node: 0, flags: 0 });
        if known {
            return Err(EEXIST);
        }
        let mut body: Vec<u8> = Vec::new();
        self.put_qid(&mut body, 0);
        assert(body@ =~= old(self)@.qid(0));
        Ok(Some(body))
    }

    fn answer_walk(&mut self, r: &mut Reader<'_>) -> (out: Reply)
        requires
            old(self)@.valid(),
            old(self)@.initialized,
            old(r).offset == 7,
            old(r).data@.len() >= 7,
        ensures
            shown(old(self)@.on_walk(old(r).data@), out, final(self)@, final(r).offset as int),
            final(self)@.valid(),
    {
        let (number, new_number, count) = match (r.number(4), r.number(4), r.number(2)) {
            (Some(number), Some(new_number), Some(count)) => (
                number as u32,
                new_number as u32,
                count,
            ),
            _ => {
                return Err(EPROTO);
            },
        };
        proof {
            bytes::lemma_pow256();
        }
        let mut node: usize = match self.fid(number) {
            Some(fid) => fid.node,
            None => {
                return Err(EBADF);
            },
        };
        if new_number != number && self.fid(new_number).is_some() {
            return Err(EEXIST);
        }
        let ghost d = r.data@;
        let ghost whole = walked(self@, d, 17, count as nat, node, Seq::empty());
        let mut seen: Vec<usize> = Vec::new();
        let mut left: u64 = count;
        assert(seen@ =~= Seq::empty());
        let mut stopped: bool = false;
        while left > 0 && !stopped
            invariant
                self@ == old(self)@,
                self@.valid(),
                r.data@ == d,
                r.offset <= d.len(),
                node < self@.nodes.len(),
                count <= 0xffff,
                seen@.len() <= count - left,
                forall|i: int| 0 <= i < seen@.len() ==> seen@[i] < self@.nodes.len(),
                whole == walked(self@, d, 17, count as nat, self@.fids[number].node, Seq::empty()),
                stopped ==> whole == Ok::<(usize, Seq<usize>, int), u32>(
                    (node, seen@, r.offset as int),
                ),
                !stopped ==> whole == walked(self@, d, r.offset as int, left as nat, node, seen@),
                d == old(r).data@,
                self@.on_walk(d) == (match whole {
                    Err(errno) => self@.fails(errno),
                    Ok((node, seen, end)) => self@.with_fid(
                        new_number,
                        Fid { node, flags: 0 },
                    ).done(le(seen.len(), 2) + qids(self@, seen), end),
                }),
            decreases
                left + if stopped {
                    0int
                } else {
                    1int
                },
        {
            let name: String = match r.string() {
                Some(name) => name,
                None => {
                    return Err(EPROTO);
                },
            };
            let found: Result<usize, u32> = if text::same(name.as_str(), ".") {
                Ok(node)
            } else if text::same(name.as_str(), "..") {
                assert(crate::http_9p::sound_node(self@.nodes[node as int], self@.nodes.len()));
                Ok(self.nodes[node].parent)
            } else {
                proof {
                    lemma_child_exists(self@, node, name@);
                }
                self.child(node, name.as_str())
            };
            match found {
                Ok(child) => {
                    node = child;
                    seen.push(child);
                    left = left - 1;
                },
                Err(errno) => {
                    if seen.len() == 0 {
                        return Err(errno);
                    }
                    stopped = true;
                },
            }
        }
        let ghost before = self@;
        let mut body: Vec<u8> = Vec::new();
        put(&mut body, seen.len() as u64, 2);
        self.put_qids(&mut body, &seen);
        assert(body@ =~= le(seen@.len(), 2) + qids(before, seen@));
        self.fids.insert(new_number, Fid { node, flags: 0 });
        Ok(Some(body))
    }

    fn put_qids(&self, out: &mut Vec<u8>, nodes: &Vec<usize>)
        requires
            forall|i: int| 0 <= i < nodes@.len() ==> nodes@[i] < self@.nodes.len(),
        ensures
            final(out)@ == old(out)@ + qids(self@, nodes@),
    {
        let mut i: usize = 0;
        assert(nodes@.take(0) =~= Seq::empty());
        assert(out@ =~= old(out)@ + Seq::<u8>::empty());
        while i < nodes.len()
            invariant
                i <= nodes@.len(),
                forall|i: int| 0 <= i < nodes@.len() ==> nodes@[i] < self@.nodes.len(),
                out@ == old(out)@ + qids(self@, nodes@.take(i as int)),
            decreases nodes@.len() - i,
        {
            self.put_qid(out, nodes[i]);
            assert(nodes@.take(i + 1).drop_last() =~= nodes@.take(i as int));
            assert(out@ =~= old(out)@ + qids(self@, nodes@.take(i + 1)));
            i = i + 1;
        }
        assert(nodes@.take(i as int) =~= nodes@);
    }

    /// A part of some contents as the body of an answer.
    fn read_part(&self, data: &[u8], offset: u64, count: usize) -> (out: Reply)
        requires
            self@.valid(),
            count <= u32::MAX,
        ensures
            shown(self@.reads(data@, offset as nat, count as nat, 23), out, self@, 23),
    {
        if offset > usize::MAX as u64 {
            return Err(EFBIG);
        }
        let start: usize = if (offset as usize) < data.len() {
            offset as usize
        } else {
            data.len()
        };
        let rest: usize = data.len() - start;
        let mut len: usize = if count < rest {
            count
        } else {
            rest
        };
        let room: usize = self.msize - 11;
        if room <= len {
            len = room;
        }
        let mut part: Vec<u8> = bytes::copy_range(data, start, len);
        let ghost model = part@;
        assert(model =~= slice_of(data@, offset as nat, count as nat, room as nat));
        let mut body: Vec<u8> = Vec::new();
        put(&mut body, part.len() as u64, 4);
        body.append(&mut part);
        assert(body@ =~= le(model.len(), 4) + model);
        Ok(Some(body))
    }

    fn answer_read(&mut self, r: &mut Reader<'_>) -> (out: Reply)
        requires
            old(self)@.valid(),
            old(self)@.initialized,
            old(r).offset == 7,
            old(r).data@.len() >= 7,
        ensures
            shown(old(self)@.on_read(old(r).data@), out, final(self)@, final(r).offset as int),
            final(self)@.valid(),
    {
        let number: u32 = match self.first_fid_of(r) {
            Ok(number) => number,
            Err(errno) => {
                return Err(errno);
            },
        };
        let node: usize = match self.fid(number) {
            Some(fid) => fid.node,
            None => {
                return Err(EBADF);
            },
        };
        let (offset, count) = match (r.number(8), r.number(4)) {
            (Some(offset), Some(count)) => (offset, count),
            _ => {
                return Err(EPROTO);
            },
        };
        proof {
            bytes::lemma_pow256();
        }
        match &self.nodes[node].kind {
            NodeKind::File(FileData::Remote { .. }) => {},
            NodeKind::File(FileData::Loading { .. }) => {
                return Ok(None);
            },
            NodeKind::File(FileData::Local(data)) => {
                return self.read_part(data.as_slice(), offset, count as usize);
            },
            NodeKind::Command => {
                return match self.command_replies.get(&number) {
                    Some(reply) => self.read_part(reply.as_slice(), offset, count as usize),
                    None => {
                        let none: Vec<u8> = Vec::new();
                        assert(none@ =~= Seq::empty());
                        self.read_part(none.as_slice(), offset, count as usize)
                    },
                };
            },
            _ => {
                return Err(EISDIR);
            },
        }
        self.request_file(node);
        Ok(None)
    }

    fn answer_write(&mut self, r: &mut Reader<'_>) -> (out: Reply)
        requires
            old(self)@.valid(),
            old(self)@.initialized,
            old(r).offset == 7,
            old(r).data@.len() >= 7,
        ensures
            shown(old(self)@.on_write(old(r).data@), out, final(self)@, final(r).offset as int),
            final(self)@.valid(),
    {
        let number: u32 = match self.first_fid_of(r) {
            Ok(number) => number,
            Err(errno) => {
                return Err(errno);
            },
        };
        let fid: Fid = match self.fid(number) {
            Some(fid) => fid,
            None => {
                return Err(EBADF);
            },
        };
        let node: usize = fid.node;
        let wide: u64 = match r.number(8) {
            Some(offset) => offset,
            None => {
                return Err(EPROTO);
            },
        };
        if wide > usize::MAX as u64 {
            return Err(EFBIG);
        }
        let count: usize = match r.number(4) {
            Some(count) => {
                proof {
                    bytes::lemma_pow256();
                }
                count as usize
            },
            None => {
                return Err(EPROTO);
            },
        };
        if r.data.len() - r.offset < count {
            return Err(EPROTO);
        }
        let part: &[u8] = vstd::slice::slice_subrange(r.data, r.offset, r.offset + count);
        r.offset = r.offset + count;
        let mut body: Vec<u8> = Vec::new();
        put(&mut body, count as u64, 4);
        assert(body@ =~= le(part@.len(), 4));
        let mut offset: usize = wide as usize;
        match &self.nodes[node].kind {
            NodeKind::Command => {
                return match self.command(number, part) {
                    Ok(()) => Ok(Some(body)),
                    Err(errno) => Err(errno),
                };
            },
            NodeKind::File(FileData::Remote { .. }) => {
                self.request_file(node);
                return Ok(None);
            },
            NodeKind::File(FileData::Loading { .. }) => {
                return Ok(None);
            },
            NodeKind::File(FileData::Local(data)) => {
                if fid.flags & 0x400 != 0 {
                    offset = data.len();
                }
            },
            _ => {
                return Err(EISDIR);
            },
        }
        if offset > MAX_FILE || count > MAX_FILE - offset {
            return Err(EFBIG);
        }
        let end: usize = offset + count;
        let ghost before = self@;
        match &mut self.nodes[node].kind {
            NodeKind::File(FileData::Local(data)) => {
                let ghost old_data = data@;
                if end > data.len() {
                    data.resize(end, 0);
                    assert(data@ =~= fitted(old_data, end as nat));
                }
                bytes::splice(data, offset, part);
                assert(data@ == written(old_data, offset as nat, part@));
            },
            _ => {},
        }
        let version: u32 = self.nodes[node].version.wrapping_add(1);
        self.nodes[node].version = version;
        proof {
            assert(self@.nodes =~= before.nodes.update(node as int, self@.nodes[node as int]));
            lemma_file_keeps_valid(before, node, self@.nodes[node as int]);
        }
        Ok(Some(body))
    }

    fn answer_clunk(&mut self, r: &mut Reader<'_>) -> (out: Reply)
        requires
            old(self)@.valid(),
            old(self)@.initialized,
            old(r).offset == 7,
            old(r).data@.len() >= 7,
        ensures
            shown(old(self)@.on_clunk(old(r).data@), out, final(self)@, final(r).offset as int),
            final(self)@.valid(),
    {
        let number: u32 = match self.first_fid_of(r) {
            Ok(number) => number,
            Err(errno) => {
                return Err(errno);
            },
        };
        self.fids.remove(&number);
        self.command_replies.remove(&number);
        assert(self@.command_replies =~= old(self)@.command_replies.remove(number));
        let body: Vec<u8> = Vec::new();
        assert(body@ =~= Seq::empty());
        Ok(Some(body))
    }

    fn answer_fsync(&mut self, r: &mut Reader<'_>) -> (out: Reply)
        requires
            old(self)@.valid(),
            old(self)@.initialized,
            old(r).offset == 7,
            old(r).data@.len() >= 7,
        ensures
            shown(old(self)@.on_fsync(old(r).data@), out, final(self)@, final(r).offset as int),
            final(self)@.valid(),
    {
        match self.first_fid_of(r) {
            Ok(_) => {},
            Err(errno) => {
                return Err(errno);
            },
        }
        match r.number(4) {
            Some(_) => {},
            None => {
                return Err(EPROTO);
            },
        }
        let body: Vec<u8> = Vec::new();
        assert(body@ =~= Seq::empty());
        Ok(Some(body))
    }

    fn answer_lock(&mut self, r: &mut Reader<'_>) -> (out: Reply)
        requires
            old(self)@.valid(),
            old(self)@.initialized,
            old(r).offset == 7,
            old(r).data@.len() >= 7,
        ensures
            shown(old(self)@.on_lock(old(r).data@), out, final(self)@, final(r).offset as int),
            final(self)@.valid(),
    {
        match self.first_fid_of(r) {
            Ok(_) => {},
            Err(errno) => {
                return Err(errno);
            },
        }
        match (r.number(1), r.number(4), r.number(8), r.number(8), r.number(4)) {
            (Some(_), Some(_), Some(_), Some(_), Some(_)) => {},
            _ => {
                return Err(EPROTO);
            },
        }
        match r.string() {
            Some(_) => {},
            None => {
                return Err(EPROTO);
            },
        }
        let mut body: Vec<u8> = Vec::new();
        put(&mut body, 0, 1);
        assert(body@ =~= le(0, 1));
        Ok(Some(body))
    }

    fn answer_getlock(&mut self, r: &mut Reader<'_>) -> (out: Reply)
        requires
            old(self)@.valid(),
            old(self)@.initialized,
            old(r).offset == 7,
            old(r).data@.len() >= 7,
        ensures
            shown(old(self)@.on_getlock(old(r).data@), out, final(self)@, final(r).offset as int),
            final(self)@.valid(),
    {
        match self.first_fid_of(r) {
            Ok(_) => {},
            Err(errno) => {
                return Err(errno);
            },
        }
        match (r.number(1), r.number(8), r.number(8), r.number(4)) {
            (Some(_), Some(_), Some(_), Some(_)) => {},
            _ => {
                return Err(EPROTO);
            },
        }
        match r.string() {
            Some(_) => {},
            None => {
                return Err(EPROTO);
            },
        }
        let mut body: Vec<u8> = Vec::new();
        put(&mut body, 2, 1);
        put(&mut body, 0, 8);
        put(&mut body, 0, 8);
        put(&mut body, 0, 4);
        put(&mut body, 0, 2);
        assert(body@ =~= le(2, 1) + le(0, 8) + le(0, 8) + le(0, 4) + le(0, 2));
        Ok(Some(body))
    }

    fn answer_flush(&mut self, r: &mut Reader<'_>) -> (out: Reply)
        requires
            old(self)@.valid(),
            old(self)@.initialized,
            old(r).offset == 7,
            old(r).data@.len() >= 7,
        ensures
            shown(old(self)@.on_flush(old(r).data@), out, final(self)@, final(r).offset as int),
            final(self)@.valid(),
    {
        match r.number(2) {
            Some(_) => {},
            None => {
                return Err(EPROTO);
            },
        }
        let body: Vec<u8> = Vec::new();
        assert(body@ =~= Seq::empty());
        Ok(Some(body))
    }

    fn handle(&mut self, kind: u8, tag: u16, r: &mut Reader<'_>) -> (out: Reply)
        requires
            old(self)@.valid(),
            old(self)@.initialized,
            old(r).offset == 7,
            old(r).data@.len() >= 7,
        ensures
            shown(
                old(self)@.handled(kind, tag, old(r).data@),
                out,
                final(self)@,
                final(r).offset as int,
            ),
            final(self)@.valid(),
    {
        match kind {
            8 => self.answer_statfs(r),
            12 => self.answer_lopen(r),
            14 => self.answer_lcreate(r),
            16 => self.answer_symlink(r),
            22 => self.answer_readlink(r),
            24 => self.answer_getattr(r),
            26 => self.answer_setattr(r),
            40 => self.answer_readdir(r),
            50 => self.answer_fsync(r),
            52 => self.answer_lock(r),
            54 => self.answer_getlock(r),
            72 => self.answer_mkdir(r),
            74 => self.answer_renameat(r),
            76 => self.answer_unlinkat(r),
            100 => self.answer_version(tag, r),
            104 => self.answer_attach(r),
            108 => self.answer_flush(r),
            110 => self.answer_walk(r),
            116 => self.answer_read(r),
            118 => self.answer_write(r),
            120 => self.answer_clunk(r),
            _ => Err(EOPNOTSUPP),
        }
    }

    fn process(&mut self, request: &[u8]) -> (r: Result<NinePRequestStatus, DeviceError>)
        requires
            old(self)@.valid(),
        ensures
            match r {
                Ok(status) => old(self)@.transacted(request@) == (
                    Ok::<StatusModel, DeviceError>(status@),
                    final(self)@,
                ),
                Err(error) => old(self)@.transacted(request@) == (
                    Err::<StatusModel, DeviceError>(error),
                    final(self)@,
                ),
            },
            final(self)@.valid(),
    {
        if request.len() < 7 || bytes::load_le(request, 0, 4) != request.len() as u64
            || request.len() > self.msize {
            return Err(DeviceError::InvalidRequest);
        }
        if !self.initialized {
            return Ok(NinePRequestStatus::Pending);
        }
        proof {
            bytes::lemma_pow256();
            bytes::lemma_le_value_bound(request@.subrange(5, 7));
        }
        let msize: usize = self.msize;
        let kind: u8 = request[4];
        let tag: u16 = bytes::load_le(request, 5, 2) as u16;
        let mut reader = Reader { data: request, offset: 7 };
        match self.handle(kind, tag, &mut reader) {
            Ok(Some(body)) => {
                if body.len() > msize - 7 {
                    return Ok(NinePRequestStatus::Complete(refusal(tag, EFBIG)));
                }
                if reader.offset != request.len() {
                    return Err(DeviceError::InvalidRequest);
                }
                Ok(NinePRequestStatus::Complete(compose(kind.wrapping_add(1), tag, body)))
            },
            Ok(None) => Ok(NinePRequestStatus::Pending),
            Err(errno) => Ok(NinePRequestStatus::Complete(refusal(tag, errno))),
        }
    }

    /// Answers one 9p request, or waits for the host.
    ///
    /// # Errors
    ///
    /// Returns an error for a malformed request.
    pub fn transact(&mut self, request_id: NinePRequestId, request: &[u8], capacity: u32) -> (r:
        Result<NinePRequestStatus, DeviceError>)
        requires
            old(self)@.valid(),
        ensures
            match r {
                Ok(status) => old(self)@.transacted(request@) == (
                    Ok::<StatusModel, DeviceError>(status@),
                    final(self)@,
                ),
                Err(error) => old(self)@.transacted(request@) == (
                    Err::<StatusModel, DeviceError>(error),
                    final(self)@,
                ),
            },
            final(self)@.valid(),
    {
        let _ = request_id;
        let _ = capacity;
        self.process(request)
    }
}

fn compose(kind: u8, tag: u16, body: Vec<u8>) -> (r: Vec<u8>)
    requires
        body@.len() <= MAX_MESSAGE,
    ensures
        r@ == message(kind, tag, body@),
{
    let ghost model = body@;
    let mut rest: Vec<u8> = body;
    let mut out: Vec<u8> = Vec::new();
    put(&mut out, rest.len() as u64 + 7, 4);
    put(&mut out, kind as u64, 1);
    put(&mut out, tag as u64, 2);
    out.append(&mut rest);
    assert(out@ =~= message(kind, tag, model));
    out
}

fn refusal(tag: u16, errno: u32) -> (r: Vec<u8>)
    ensures
        r@ == message(RLERROR, tag, le(errno as nat, 4)),
{
    let mut body: Vec<u8> = Vec::new();
    put(&mut body, errno as u64, 4);
    assert(body@ =~= le(errno as nat, 4));
    proof {
        bytes::lemma_le_bytes_len(errno as nat, 4);
    }
    compose(RLERROR, tag, body)
}

proof fn lemma_version_names()
    ensures
        vstd::utf8::encode_utf8("9P2000.L"@).len() <= 0xffff,
        vstd::utf8::encode_utf8("unknown"@).len() <= 0xffff,
{
    reveal_strlit("9P2000.L");
    reveal_strlit("unknown");
    lemma_encoded_len("9P2000.L"@);
    lemma_encoded_len("unknown"@);
}

/// A character takes at most four bytes.
proof fn lemma_encoded_len(chars: Seq<char>)
    ensures
        vstd::utf8::encode_utf8(chars).len() <= 4 * chars.len(),
    decreases chars.len(),
{
    if chars.len() > 0 {
        lemma_encoded_len(chars.drop_first());
    }
}

/// Other contents of a file keep a filesystem valid.
proof fn lemma_file_keeps_valid(fs: FsModel, node: usize, n: NodeModel)
    requires
        fs.valid(),
        node < fs.nodes.len(),
        fs.nodes[node as int].kind is File,
        n.kind is File,
        n.parent == fs.nodes[node as int].parent,
    ensures
        (FsModel { nodes: fs.nodes.update(node as int, n), ..fs }).valid(),
{
    let after = FsModel { nodes: fs.nodes.update(node as int, n), ..fs };
    assert forall|i: int| 0 <= i < after.nodes.len() implies crate::http_9p::sound_node(
        #[trigger] after.nodes[i],
        after.nodes.len(),
    ) by {
        assert(crate::http_9p::sound_node(fs.nodes[i], fs.nodes.len()));
    }
}

/// What a write put into a file that is here, a read at the same place gives
/// back, as far as a message has room.
pub proof fn law_read_after_write(fs: FsModel, number: u32, offset: nat, part: Seq<u8>, end: int)
    requires
        fs.valid(),
        fs.fids.contains_key(number),
        fs.nodes[fs.fids[number].node as int].kind matches NodeKindModel::File(
            DataModel::Local(_),
        ),
        fs.fids[number].flags & 0x400 == 0,
        offset + part.len() <= MAX_FILE,
        part.len() <= fs.msize - 11,
    ensures
        fs.write_file(number, offset, part, end) matches Answer::Done { fs: after, body, .. }
            && body == le(part.len(), 4) && after.read_file(number, offset, part.len(), end)
            == after.done(le(part.len(), 4) + part, end),
{
    let node = fs.fids[number].node;
    let data = fs.nodes[node as int].kind->File_0->Local_0;
    let after = fs.write_file(number, offset, part, end)->Done_fs;
    let now = written(data, offset, part);
    assert(after.nodes[node as int].kind == NodeKindModel::File(DataModel::Local(now)));
    assert(slice_of(now, offset, part.len(), (fs.msize - 11) as nat) =~= part);
}

/// A write leaves the rest of a file as it was.
pub proof fn law_write_leaves_rest(data: Seq<u8>, offset: nat, part: Seq<u8>, i: int)
    requires
        0 <= i < data.len(),
        i < offset || offset + part.len() <= i,
    ensures
        i < written(data, offset, part).len(),
        written(data, offset, part)[i] == data[i],
{
}

/// A read of a file on the server waits and asks for it; when its contents have
/// come, the same read gives them.
pub proof fn law_read_resumes_after_fetch(
    fs: FsModel,
    number: u32,
    offset: nat,
    count: nat,
    end: int,
    data: Seq<u8>,
)
    requires
        fs.valid(),
        fs.fids.contains_key(number),
        fs.nodes[fs.fids[number].node as int].kind matches NodeKindModel::File(
            DataModel::Remote { size, .. },
        ) && size == data.len(),
    ensures
        ({
            let id = fs.next_request_id;
            let (r, after) = fs.file_requested(fs.fids[number].node).completed(id, data);
            &&& fs.read_file(number, offset, count, end) == (Answer::Waits {
                fs: fs.file_requested(fs.fids[number].node),
            })
            &&& r == Ok::<(), DeviceError>(())
            &&& after.read_file(number, offset, count, end) == after.reads(
                data,
                offset,
                count,
                end,
            )
        }),
{
    let node = fs.fids[number].node;
    let waiting = fs.file_requested(node);
    assert(waiting.pending[fs.next_request_id] == Pending::File(node));
    assert(waiting.nodes[node as int].kind is File);
}

/// A node that was made is found under its name.
pub proof fn law_made_node_is_found(
    fs: FsModel,
    parent: usize,
    name: Seq<char>,
    mode: u32,
    kind: NodeKindModel,
)
    requires
        fs.valid(),
        fs.nodes.len() < usize::MAX,
        parent < fs.nodes.len(),
        kind matches NodeKindModel::Directory(children) ==> children.len() == 0,
    ensures
        fs.created(parent, name, mode, kind) matches Ok(after) ==> after.child_node(parent, name)
            == Ok::<usize, u32>(fs.nodes.len() as usize) && after.nodes[fs.nodes.len() as int].kind
            == kind,
{
    if fs.created(parent, name, mode, kind) is Ok {
        let node = NodeModel {
            parent,
            name,
            mode: mode & 0xfff,
            uid: 0,
            gid: 0,
            mtime: 0,
            version: 0,
            kind,
        };
        crate::http_9p::lemma_with_node_sound(fs, parent, node);
    }
}

/// A name that was removed is gone.
pub proof fn law_removed_name_is_gone(
    fs: FsModel,
    parent: usize,
    name: Seq<char>,
    flags: u32,
    end: int,
)
    requires
        fs.valid(),
        parent < fs.nodes.len(),
    ensures
        fs.unlinks(parent, name, flags, end) matches Answer::Done { fs: after, .. }
            ==> after.child_node(parent, name) == Err::<usize, u32>(crate::http_9p::ENOENT),
{
    lemma_child_exists(fs, parent, name);
    if fs.child_node(parent, name) is Ok {
        assert(crate::http_9p::sound_node(fs.nodes[parent as int], fs.nodes.len()));
        crate::http_9p::lemma_without_child_in_order(
            fs.nodes[parent as int].kind->Directory_0,
            name,
        );
    }
}

/// A node that was moved is found under its new name.
pub proof fn law_moved_node_is_found(
    fs: FsModel,
    from: usize,
    name: Seq<char>,
    to: usize,
    new_name: Seq<char>,
    end: int,
)
    requires
        fs.valid(),
        from < fs.nodes.len(),
        to < fs.nodes.len(),
    ensures
        fs.renames(from, name, to, new_name, end) matches Answer::Done { fs: after, .. }
            ==> after.child_node(to, new_name) == fs.child_node(from, name),
{
    lemma_child_exists(fs, from, name);
    if fs.renames(from, name, to, new_name, end) is Done {
        let node = fs.child_node(from, name)->Ok_0;
        let removed = fs.without_name(from, name);
        assert(crate::http_9p::sound_node(fs.nodes[from as int], fs.nodes.len()));
        assert(crate::http_9p::sound_node(fs.nodes[to as int], fs.nodes.len()));
        let before = fs.nodes[from as int].kind->Directory_0;
        crate::http_9p::lemma_without_child_in_order(before, name);
        if from == to {
            lemma_other_name_stays_missing(before, name, new_name);
        }
        let children = removed.nodes[to as int].kind->Directory_0;
        crate::http_9p::lemma_with_child_in_order(children, new_name, node);
    }
}

/// A filesystem without its file list keeps well-formed requests waiting.
pub proof fn law_requests_wait_for_the_list(fs: FsModel, d: Seq<u8>)
    requires
        !fs.initialized,
        7 <= d.len() <= fs.msize,
        bytes::le_value(d.subrange(0, 4)) == d.len(),
    ensures
        fs.transacted(d) == (Ok::<StatusModel, DeviceError>(StatusModel::Pending), fs),
{
}

} // verus!
