//! Mutable 9P2000.L filesystem whose initial file bodies are fetched over HTTP.

use std::collections::{BTreeMap, VecDeque};
use vstd::prelude::*;
use crate::bytes;
use crate::crypto;
use crate::listing;
use crate::text;
use crate::virtio_devices::DeviceError;

verus! {

broadcast use vstd::std_specs::btree::group_btree_axioms;

pub const MAX_MESSAGE: usize = 65536;
pub const MAX_FILE: usize = 0x100_0000;
pub const NOTAG: u16 = 0xffff;
pub const RLERROR: u8 = 7;
pub const ENOENT: u32 = 2;
pub const EIO: u32 = 5;
pub const EBADF: u32 = 9;
pub const EEXIST: u32 = 17;
pub const ENOTDIR: u32 = 20;
pub const EISDIR: u32 = 21;
pub const EINVAL: u32 = 22;
pub const EFBIG: u32 = 27;
pub const ENOTEMPTY: u32 = 39;
pub const EPROTO: u32 = 71;
pub const EOPNOTSUPP: u32 = 95;

/// An entry of a directory.
pub struct Child {
    pub name: String,
    pub node: usize,
}

/// The contents of a file: still on the server, on their way, or here.
pub enum FileData {
    Remote { id: u64, size: u64 },
    Loading { size: u64 },
    Local(Vec<u8>),
}

pub enum NodeKind {
    Directory(Vec<Child>),
    File(FileData),
    Symlink(String),
    Command,
    Special,
}

pub struct Node {
    pub parent: usize,
    pub name: String,
    pub mode: u32,
    pub uid: u32,
    pub gid: u32,
    pub mtime: u64,
    pub version: u32,
    pub kind: NodeKind,
}

#[derive(Clone, Copy, Debug, PartialEq, Eq, Structural)]
pub struct Fid {
    pub node: usize,
    pub flags: u32,
}

/// What an HTTP request was sent for.
#[derive(Clone, Copy, Debug, PartialEq, Eq, Structural)]
pub enum Pending {
    Head,
    FileList,
    File(usize),
}

/// An HTTP request that the host has to send.
#[derive(Clone, Debug, PartialEq, Eq)]
pub struct NinePHostRequest {
    pub id: u32,
    pub url: String,
}

/// What became of a 9p request.
#[derive(Clone, Debug, PartialEq, Eq)]
pub enum NinePRequestStatus {
    Complete(Vec<u8>),
    Pending,
}

/// Browser HTTP filesystem compatible with TinyEMU's `fs_net` image layout.
pub struct HttpNineP {
    pub base_url: String,
    pub password: String,
    pub nodes: Vec<Node>,
    pub fids: BTreeMap<u32, Fid>,
    pub msize: usize,
    pub next_request_id: u32,
    pub outgoing: VecDeque<NinePHostRequest>,
    pub pending: BTreeMap<u32, Pending>,
    pub command_replies: BTreeMap<u32, Vec<u8>>,
    pub initialized: bool,
}

/// The model of the contents of a file.
pub enum DataModel {
    Remote { id: u64, size: u64 },
    Loading { size: u64 },
    Local(Seq<u8>),
}

/// The model of what a node is.
pub enum NodeKindModel {
    Directory(Seq<(Seq<char>, usize)>),
    File(DataModel),
    Symlink(Seq<char>),
    Command,
    Special,
}

/// The model of a node.
#[verifier::ext_equal]
pub struct NodeModel {
    pub parent: usize,
    pub name: Seq<char>,
    pub mode: u32,
    pub uid: u32,
    pub gid: u32,
    pub mtime: u64,
    pub version: u32,
    pub kind: NodeKindModel,
}

/// The model of a request to the host.
#[verifier::ext_equal]
pub struct HostRequestModel {
    pub id: u32,
    pub url: Seq<char>,
}

/// The model of what became of a 9p request.
#[verifier::ext_equal]
pub enum StatusModel {
    Complete(Seq<u8>),
    Pending,
}

/// The model of a filesystem.
#[verifier::ext_equal]
pub struct FsModel {
    pub base_url: Seq<char>,
    pub password: Seq<char>,
    pub nodes: Seq<NodeModel>,
    pub fids: Map<u32, Fid>,
    pub msize: usize,
    pub next_request_id: u32,
    pub outgoing: Seq<HostRequestModel>,
    pub pending: Map<u32, Pending>,
    pub command_replies: Map<u32, Seq<u8>>,
    pub initialized: bool,
}

pub open spec fn child_models(children: Seq<Child>) -> Seq<(Seq<char>, usize)> {
    children.map_values(|child: Child| (child.name@, child.node))
}

impl View for FileData {
    type V = DataModel;

    open spec fn view(&self) -> DataModel {
        match self {
            FileData::Remote { id, size } => DataModel::Remote { id: *id, size: *size },
            FileData::Loading { size } => DataModel::Loading { size: *size },
            FileData::Local(data) => DataModel::Local(data@),
        }
    }
}

impl View for NodeKind {
    type V = NodeKindModel;

    open spec fn view(&self) -> NodeKindModel {
        match self {
            NodeKind::Directory(children) => NodeKindModel::Directory(child_models(children@)),
            NodeKind::File(data) => NodeKindModel::File(data@),
            NodeKind::Symlink(target) => NodeKindModel::Symlink(target@),
            NodeKind::Command => NodeKindModel::Command,
            NodeKind::Special => NodeKindModel::Special,
        }
    }
}

impl View for Node {
    type V = NodeModel;

    open spec fn view(&self) -> NodeModel {
        NodeModel {
            parent: self.parent,
            name: self.name@,
            mode: self.mode,
            uid: self.uid,
            gid: self.gid,
            mtime: self.mtime,
            version: self.version,
            kind: self.kind@,
        }
    }
}

impl View for NinePHostRequest {
    type V = HostRequestModel;

    open spec fn view(&self) -> HostRequestModel {
        HostRequestModel { id: self.id, url: self.url@ }
    }
}

impl View for NinePRequestStatus {
    type V = StatusModel;

    open spec fn view(&self) -> StatusModel {
        match self {
            NinePRequestStatus::Complete(reply) => StatusModel::Complete(reply@),
            NinePRequestStatus::Pending => StatusModel::Pending,
        }
    }
}

pub open spec fn node_models(nodes: Seq<Node>) -> Seq<NodeModel> {
    nodes.map_values(|node: Node| node@)
}

pub open spec fn host_requests(requests: Seq<NinePHostRequest>) -> Seq<HostRequestModel> {
    requests.map_values(|request: NinePHostRequest| request@)
}

pub open spec fn replies(map: Map<u32, Vec<u8>>) -> Map<u32, Seq<u8>> {
    map.map_values(|reply: Vec<u8>| reply@)
}

impl View for HttpNineP {
    type V = FsModel;

    open spec fn view(&self) -> FsModel {
        FsModel {
            base_url: self.base_url@,
            password: self.password@,
            nodes: node_models(self.nodes@),
            fids: self.fids@,
            msize: self.msize,
            next_request_id: self.next_request_id,
            outgoing: host_requests(self.outgoing@),
            pending: self.pending@,
            command_replies: replies(self.command_replies@),
            initialized: self.initialized,
        }
    }
}

/// The place of the first entry from `i` on with a name, or the end.
pub open spec fn name_place(children: Seq<(Seq<char>, usize)>, name: Seq<char>, i: nat) -> nat
    decreases children.len() - i,
{
    if i >= children.len() || children[i as int].0 == name {
        i
    } else {
        name_place(children, name, i + 1)
    }
}

/// The node that a directory has under a name.
pub open spec fn child_of(children: Seq<(Seq<char>, usize)>, name: Seq<char>) -> Option<usize> {
    let i = name_place(children, name, 0);
    if i < children.len() {
        Some(children[i as int].1)
    } else {
        None
    }
}

/// The place from `i` on where a name goes in the order of names.
pub open spec fn sorted_place(children: Seq<(Seq<char>, usize)>, name: Seq<char>, i: nat) -> nat
    decreases children.len() - i,
{
    if i >= children.len() || text::precedes(name, children[i as int].0) {
        i
    } else {
        sorted_place(children, name, i + 1)
    }
}

/// A directory with another entry.
pub open spec fn with_child(children: Seq<(Seq<char>, usize)>, name: Seq<char>, node: usize) -> Seq<
    (Seq<char>, usize),
> {
    children.insert(sorted_place(children, name, 0) as int, (name, node))
}

/// A directory without the entry of a name.
pub open spec fn without_child(children: Seq<(Seq<char>, usize)>, name: Seq<char>) -> Seq<
    (Seq<char>, usize),
> {
    let i = name_place(children, name, 0);
    if i < children.len() {
        children.remove(i as int)
    } else {
        children
    }
}

/// Whether the entries of a directory are in the order of their names, which
/// differ.
pub open spec fn in_order(children: Seq<(Seq<char>, usize)>) -> bool {
    forall|i: int, j: int|
        0 <= i < j < children.len() ==> text::precedes(
            (#[trigger] children[i]).0,
            (#[trigger] children[j]).0,
        )
}

/// Whether a node speaks of `count` nodes only.
pub open spec fn sound_node(node: NodeModel, count: nat) -> bool {
    &&& node.parent < count
    &&& node.kind matches NodeKindModel::Directory(children) ==> in_order(children) && forall|
        i: int,
    |
        0 <= i < children.len() ==> (#[trigger] children[i]).1 < count
}

impl FsModel {
    /// The invariant: every reference to a node is one, directories are in
    /// order, and the tree is not in use before the file list has come.
    pub open spec fn valid(self) -> bool {
        &&& 0 < self.nodes.len() <= usize::MAX
        &&& self.nodes[0].kind is Directory
        &&& 256 <= self.msize <= MAX_MESSAGE
        &&& forall|i: int|
            0 <= i < self.nodes.len() ==> sound_node(#[trigger] self.nodes[i], self.nodes.len())
        &&& forall|f: u32| #[trigger]
            self.fids.contains_key(f) ==> self.initialized && self.fids[f].node < self.nodes.len()
        &&& forall|id: u32| #[trigger]
            self.pending.contains_key(id) ==> match self.pending[id] {
                Pending::File(node) => self.initialized && node < self.nodes.len(),
                _ => !self.initialized,
            }
        &&& forall|a: u32, b: u32| #[trigger]
            self.pending.contains_key(a) && #[trigger] self.pending.contains_key(b)
                && !self.initialized ==> a == b
    }

    /// The filesystem with a request for the host behind the others.
    pub open spec fn queued(self, suffix: Seq<char>, pending: Pending) -> FsModel {
        let id = self.next_request_id;
        FsModel {
            next_request_id: if id == u32::MAX {
                1
            } else {
                (id + 1) as u32
            },
            outgoing: self.outgoing.push(
                HostRequestModel { id, url: self.base_url + "/"@ + suffix },
            ),
            pending: self.pending.insert(id, pending),
            ..self
        }
    }

    pub open spec fn with_kind(self, node: usize, kind: NodeKindModel) -> FsModel {
        FsModel {
            nodes: self.nodes.update(
                node as int,
                NodeModel { kind, ..self.nodes[node as int] },
            ),
            ..self
        }
    }

    /// The filesystem after a file's contents have been asked for, if they are
    /// on the server.
    pub open spec fn file_requested(self, node: usize) -> FsModel {
        match self.nodes[node as int].kind {
            NodeKindModel::File(DataModel::Remote { id, size }) => self.with_kind(
                node,
                NodeKindModel::File(DataModel::Loading { size }),
            ).queued(
                "files/"@ + text::padded_hexadecimal(id as nat, 16),
                Pending::File(node),
            ),
            _ => self,
        }
    }

    /// The filesystem with another node in a directory.
    pub open spec fn with_node(self, parent: usize, node: NodeModel) -> Result<FsModel, u32> {
        match self.nodes[parent as int].kind {
            NodeKindModel::Directory(children) => if child_of(children, node.name) is Some {
                Err(EEXIST)
            } else {
                Ok(
                    FsModel {
                        nodes: self.with_kind(
                            parent,
                            NodeKindModel::Directory(
                                with_child(children, node.name, self.nodes.len() as usize),
                            ),
                        ).nodes.push(NodeModel { parent, ..node }),
                        ..self
                    },
                )
            },
            _ => Err(ENOTDIR),
        }
    }

    /// The node that a directory node has under a name.
    pub open spec fn child_node(self, node: usize, name: Seq<char>) -> Result<usize, u32> {
        match self.nodes[node as int].kind {
            NodeKindModel::Directory(children) => match child_of(children, name) {
                Some(child) => Ok(child),
                None => Err(ENOENT),
            },
            _ => Err(ENOTDIR),
        }
    }
}

/// The root of a tree.
pub open spec fn root_node() -> NodeModel {
    NodeModel {
        parent: 0,
        name: Seq::empty(),
        mode: 0x1ed,
        uid: 0,
        gid: 0,
        mtime: 0,
        version: 0,
        kind: NodeKindModel::Directory(Seq::empty()),
    }
}

pub(crate) fn find_name(children: &Vec<Child>, name: &str) -> (r: usize)
    ensures
        r == name_place(child_models(children@), name@, 0),
        r <= children@.len(),
{
    let mut i: usize = 0;
    while i < children.len()
        invariant
            i <= children@.len(),
            name_place(child_models(children@), name@, i as nat) == name_place(
                child_models(children@),
                name@,
                0,
            ),
        decreases children@.len() - i,
    {
        if text::same(children[i].name.as_str(), name) {
            return i;
        }
        i = i + 1;
    }
    i
}

pub(crate) fn find_place(children: &Vec<Child>, name: &str) -> (r: usize)
    ensures
        r == sorted_place(child_models(children@), name@, 0),
        r <= children@.len(),
{
    let mut i: usize = 0;
    while i < children.len()
        invariant
            i <= children@.len(),
            sorted_place(child_models(children@), name@, i as nat) == sorted_place(
                child_models(children@),
                name@,
                0,
            ),
        decreases children@.len() - i,
    {
        if text::text_precedes(name, children[i].name.as_str()) {
            return i;
        }
        i = i + 1;
    }
    i
}

pub proof fn lemma_sorted_place(children: Seq<(Seq<char>, usize)>, name: Seq<char>, i: nat)
    requires
        i <= children.len(),
    ensures
        ({
            let p = sorted_place(children, name, i);
            &&& i <= p <= children.len()
            &&& p < children.len() ==> text::precedes(name, children[p as int].0)
            &&& forall|k: int| i <= k < p ==> !text::precedes(name, (#[trigger] children[k]).0)
        }),
    decreases children.len() - i,
{
    if i < children.len() && !text::precedes(name, children[i as int].0) {
        lemma_sorted_place(children, name, i + 1);
    }
}

pub proof fn lemma_name_place(children: Seq<(Seq<char>, usize)>, name: Seq<char>, i: nat)
    requires
        i <= children.len(),
    ensures
        ({
            let p = name_place(children, name, i);
            &&& i <= p <= children.len()
            &&& p < children.len() ==> children[p as int].0 == name
            &&& forall|k: int| i <= k < p ==> (#[trigger] children[k]).0 != name
        }),
    decreases children.len() - i,
{
    if i < children.len() && children[i as int].0 != name {
        lemma_name_place(children, name, i + 1);
    }
}

/// A new name keeps a directory in order.
pub proof fn lemma_with_child_in_order(
    children: Seq<(Seq<char>, usize)>,
    name: Seq<char>,
    node: usize,
)
    requires
        in_order(children),
        child_of(children, name) is None,
    ensures
        in_order(with_child(children, name, node)),
        child_of(with_child(children, name, node), name) == Some(node),
{
    let p = sorted_place(children, name, 0) as int;
    let after = with_child(children, name, node);
    lemma_sorted_place(children, name, 0);
    lemma_name_place(children, name, 0);
    assert forall|i: int, j: int| 0 <= i < j < after.len() implies text::precedes(
        (#[trigger] after[i]).0,
        (#[trigger] after[j]).0,
    ) by {
        let a = if i < p {
            i
        } else {
            i - 1
        };
        let b = if j < p {
            j
        } else {
            j - 1
        };
        if i == p {
            assert(after[j] == children[b]);
            if b > p {
                assert(text::precedes(children[p].0, children[b].0));
                text::lemma_precedes_transitive(name, children[p].0, children[b].0);
            }
        } else if j == p {
            assert(after[i] == children[a]);
            assert(children[a].0 != name);
            text::lemma_precedes_total(name, children[a].0);
        } else {
            assert(after[i] == children[a] && after[j] == children[b]);
        }
    }
    lemma_name_place(after, name, 0);
    let q = name_place(after, name, 0) as int;
    assert(after[p] == (name, node));
    if q < p {
        assert(after[q] == children[q]);
        assert(false);
    }
    assert(q == p);
}

/// Removing a name keeps a directory in order, and the name is gone.
pub proof fn lemma_without_child_in_order(children: Seq<(Seq<char>, usize)>, name: Seq<char>)
    requires
        in_order(children),
    ensures
        in_order(without_child(children, name)),
        child_of(without_child(children, name), name) is None,
{
    let p = name_place(children, name, 0) as int;
    let after = without_child(children, name);
    lemma_name_place(children, name, 0);
    lemma_name_place(after, name, 0);
    assert forall|i: int, j: int| 0 <= i < j < after.len() implies text::precedes(
        (#[trigger] after[i]).0,
        (#[trigger] after[j]).0,
    ) by {
        if p < children.len() {
            let a = if i < p {
                i
            } else {
                i + 1
            };
            let b = if j < p {
                j
            } else {
                j + 1
            };
            assert(after[i] == children[a] && after[j] == children[b]);
        }
    }
    let q = name_place(after, name, 0) as int;
    if q < after.len() && p < children.len() {
        let b = if q < p {
            q
        } else {
            q + 1
        };
        assert(after[q] == children[b]);
        assert(children[b].0 == name && children[p].0 == name);
        text::lemma_precedes_total(name, name);
        if b < p {
            assert(text::precedes(children[b].0, children[p].0));
        } else {
            assert(text::precedes(children[p].0, children[b].0));
        }
        assert(false);
    }
}

/// A node of a file list, which its line describes by mode, owner, size, time,
/// name and contents.
pub open spec fn listed_node(line: Seq<char>) -> Option<NodeModel> {
    match listing::fields(line) {
        Some(f) if f.len() >= 5 => {
            let raw = listing::number(f[0], 8, u32::MAX as nat);
            let uid = listing::number(f[1], 10, u32::MAX as nat);
            let gid = listing::number(f[2], 10, u32::MAX as nat);
            let file_type = raw->0 as u32 / 4096;
            let at: int = if file_type == 8 {
                4
            } else {
                3
            };
            let kind = if file_type == 4 {
                Some(NodeKindModel::Directory(Seq::empty()))
            } else if file_type == 8 {
                listed_file(f)
            } else if file_type == 10 {
                if f.len() > 5 {
                    Some(NodeKindModel::Symlink(f[5]))
                } else {
                    None
                }
            } else {
                Some(NodeKindModel::Special)
            };
            let mtime = listing::number(listing::before(f[at], '.'), 10, u64::MAX as nat);
            if raw is None || uid is None || gid is None || kind is None || mtime is None || f.len()
                <= at + 1 || !listing::is_name(f[at + 1]) {
                None
            } else {
                Some(
                    NodeModel {
                        parent: 0,
                        name: f[at + 1],
                        mode: raw->0 as u32 & 0xfff,
                        uid: uid->0 as u32,
                        gid: gid->0 as u32,
                        mtime: mtime->0 as u64,
                        version: 0,
                        kind: kind->0,
                    },
                )
            }
        },
        _ => None,
    }
}

/// The file that the fields of its line describe. An empty one is here.
pub open spec fn listed_file(f: Seq<Seq<char>>) -> Option<NodeKindModel> {
    match listing::number(f[3], 10, u64::MAX as nat) {
        None => None,
        Some(size) => if size == 0 {
            Some(NodeKindModel::File(DataModel::Local(Seq::empty())))
        } else if f.len() <= 6 {
            None
        } else {
            match listing::number(f[6], 16, u64::MAX as nat) {
                None => None,
                Some(id) => Some(
                    NodeKindModel::File(DataModel::Remote { id: id as u64, size: size as u64 }),
                ),
            }
        },
    }
}

impl FsModel {
    /// The tree after the lines of a file list from `i` on, inside the
    /// directories of `stack`, and whether they were in order. A line with a
    /// dot ends a directory, and that of the root ends the list.
    pub open spec fn listed_from(self, lines: Seq<Seq<char>>, i: nat, stack: Seq<usize>) -> (
        bool,
        FsModel,
    )
        decreases lines.len() - i,
    {
        if i >= lines.len() {
            (stack.len() == 1, self)
        } else {
            let line = listing::trimmed(lines[i as int]);
            if line.len() == 0 || line[0] == '#' {
                self.listed_from(lines, i + 1, stack)
            } else if line == "."@ {
                if stack.len() <= 1 {
                    (true, self)
                } else {
                    self.listed_from(lines, i + 1, stack.drop_last())
                }
            } else {
                match listed_node(line) {
                    None => (false, self),
                    Some(node) => match self.with_node(stack.last(), node) {
                        Err(_) => (false, self),
                        Ok(next) => next.listed_from(
                            lines,
                            i + 1,
                            if node.kind is Directory {
                                stack.push(self.nodes.len() as usize)
                            } else {
                                stack
                            },
                        ),
                    },
                }
            }
        }
    }

    /// The filesystem with the tree of a file list, and whether the list was in
    /// order. The tree gets a command file, and a file with the password if
    /// there is one.
    pub open spec fn listed(self, source: Seq<char>) -> (bool, FsModel) {
        let lines = listing::lines(source);
        if lines.len() == 0 || (!listing::holds(lines[0], "Version: 1"@) && !listing::holds(
            lines[0],
            "Version:1"@,
        )) {
            (false, self)
        } else {
            let (sound, tree) = FsModel { nodes: seq![root_node()], ..self }.listed_from(
                lines,
                1,
                seq![0usize],
            );
            if !sound {
                (false, tree)
            } else {
                match tree.with_node(0, extra_node(".fscmd"@, 0x1b6, NodeKindModel::Command)) {
                    Err(_) => (false, tree),
                    Ok(commanded) => if self.password.len() == 0 {
                        (true, FsModel { initialized: true, ..commanded })
                    } else {
                        match commanded.with_node(
                            0,
                            extra_node(
                                ".fscmd_pwd"@,
                                0x180,
                                NodeKindModel::File(
                                    DataModel::Local(vstd::utf8::encode_utf8(self.password)),
                                ),
                            ),
                        ) {
                            Err(_) => (false, commanded),
                            Ok(whole) => (true, FsModel { initialized: true, ..whole }),
                        }
                    },
                }
            }
        }
    }
}

/// A node that no file list describes.
pub open spec fn extra_node(name: Seq<char>, mode: u32, kind: NodeKindModel) -> NodeModel {
    NodeModel { parent: 0, name, mode, uid: 0, gid: 0, mtime: 0, version: 0, kind }
}

fn read_file_fields(f: &Vec<String>) -> (r: Option<NodeKind>)
    requires
        f@.len() >= 5,
    ensures
        match r {
            Some(kind) => listed_file(listing::views(f@)) == Some(kind@),
            None => listed_file(listing::views(f@)) is None,
        },
{
    match listing::parse_number(f[3].as_str(), 10, u64::MAX) {
        None => None,
        Some(size) => if size == 0 {
            let none: Vec<u8> = Vec::new();
            assert(none@ =~= Seq::empty());
            Some(NodeKind::File(FileData::Local(none)))
        } else if f.len() <= 6 {
            None
        } else {
            match listing::parse_number(f[6].as_str(), 16, u64::MAX) {
                None => None,
                Some(id) => Some(NodeKind::File(FileData::Remote { id, size })),
            }
        },
    }
}

pub(crate) fn copy_text(source: &str) -> (r: String)
    ensures
        r@ == source@,
{
    source.to_owned()
}

fn read_listed_node(line: &str) -> (r: Option<Node>)
    ensures
        match r {
            Some(node) => listed_node(line@) == Some(node@),
            None => listed_node(line@) is None,
        },
{
    let f: Vec<String> = match listing::split_fields(line) {
        Some(f) => f,
        None => {
            return None;
        },
    };
    if f.len() < 5 {
        return None;
    }
    let (raw, uid, gid) = match (
        listing::parse_number(f[0].as_str(), 8, 0xffff_ffff),
        listing::parse_number(f[1].as_str(), 10, 0xffff_ffff),
        listing::parse_number(f[2].as_str(), 10, 0xffff_ffff),
    ) {
        (Some(raw), Some(uid), Some(gid)) => (raw as u32, uid as u32, gid as u32),
        _ => {
            return None;
        },
    };
    let file_type: u32 = raw / 4096;
    let at: usize = if file_type == 8 {
        4
    } else {
        3
    };
    let kind: NodeKind = if file_type == 4 {
        let none: Vec<Child> = Vec::new();
        assert(child_models(none@) =~= Seq::empty());
        NodeKind::Directory(none)
    } else if file_type == 8 {
        match read_file_fields(&f) {
            Some(kind) => kind,
            None => {
                return None;
            },
        }
    } else if file_type == 10 {
        if f.len() <= 5 {
            return None;
        }
        NodeKind::Symlink(copy_text(f[5].as_str()))
    } else {
        NodeKind::Special
    };
    let seconds: String = listing::part_before(f[at].as_str(), '.');
    let mtime: u64 = match listing::parse_number(seconds.as_str(), 10, u64::MAX) {
        Some(mtime) => mtime,
        None => {
            return None;
        },
    };
    if f.len() <= at + 1 || !listing::valid_name(f[at + 1].as_str()) {
        return None;
    }
    Some(
        Node {
            parent: 0,
            name: copy_text(f[at + 1].as_str()),
            mode: raw & 0xfff,
            uid,
            gid,
            mtime,
            version: 0,
            kind,
        },
    )
}

impl FsModel {
    /// Whether the nodes are sound.
    pub open spec fn sound_tree(self) -> bool {
        &&& 0 < self.nodes.len() <= usize::MAX
        &&& self.nodes[0].kind is Directory
        &&& forall|i: int|
            0 <= i < self.nodes.len() ==> sound_node(#[trigger] self.nodes[i], self.nodes.len())
    }
}

pub proof fn lemma_with_node_sound(fs: FsModel, parent: usize, node: NodeModel)
    requires
        fs.sound_tree(),
        parent < fs.nodes.len() < usize::MAX,
        node.kind matches NodeKindModel::Directory(children) ==> children.len() == 0,
    ensures
        fs.with_node(parent, node) matches Ok(after) ==> after.sound_tree() && after.nodes.len()
            == fs.nodes.len() + 1 && after.child_node(parent, node.name) == Ok::<usize, u32>(
            fs.nodes.len() as usize,
        ),
{
    if fs.with_node(parent, node) is Ok {
        let after = fs.with_node(parent, node)->Ok_0;
        let children = fs.nodes[parent as int].kind->Directory_0;
        let fresh = fs.nodes.len() as usize;
        assert(sound_node(fs.nodes[parent as int], fs.nodes.len()));
        lemma_with_child_in_order(children, node.name, fresh);
        lemma_sorted_place(children, node.name, 0);
        assert forall|i: int| 0 <= i < after.nodes.len() implies sound_node(
            #[trigger] after.nodes[i],
            after.nodes.len(),
        ) by {
            if i == parent {
                let grown = with_child(children, node.name, fresh);
                let p = sorted_place(children, node.name, 0) as int;
                assert forall|k: int| 0 <= k < grown.len() implies (#[trigger] grown[k]).1
                    < after.nodes.len() by {
                    if k < p {
                        assert(grown[k] == children[k]);
                    } else if k > p {
                        assert(grown[k] == children[k - 1]);
                    }
                }
                assert(after.nodes[i].kind == NodeKindModel::Directory(grown));
            } else if i < fs.nodes.len() {
                assert(sound_node(fs.nodes[i], fs.nodes.len()));
                assert(after.nodes[i] == fs.nodes[i]);
            }
        }
    }
}

impl HttpNineP {
    fn queue(&mut self, suffix: &str, pending: Pending)
        ensures
            final(self)@ == old(self)@.queued(suffix@, pending),
    {
        let id: u32 = self.next_request_id;
        self.next_request_id = if id == u32::MAX {
            1
        } else {
            id + 1
        };
        let start: String = text::joined(self.base_url.as_str(), "/");
        let request: NinePHostRequest = NinePHostRequest {
            id,
            url: text::joined(start.as_str(), suffix),
        };
        let ghost model = request@;
        self.outgoing.push_back(request);
        assert(host_requests(self.outgoing@) =~= old(self)@.outgoing.push(model));
        self.pending.insert(id, pending);
    }

    fn queue_file(&mut self, id: u64, pending: Pending)
        ensures
            final(self)@ == old(self)@.queued(
                "files/"@ + text::padded_hexadecimal(id as nat, 16),
                pending,
            ),
    {
        let digits: String = text::padded_hexadecimal_text(id, 16);
        let suffix: String = text::joined("files/", digits.as_str());
        self.queue(suffix.as_str(), pending);
    }

    /// Asks for the contents of a file that is on the server.
    pub(crate) fn request_file(&mut self, node: usize)
        requires
            old(self)@.valid(),
            old(self)@.initialized,
            node < old(self)@.nodes.len(),
        ensures
            final(self)@ == old(self)@.file_requested(node),
            final(self)@.valid(),
    {
        let (id, size) = match &self.nodes[node].kind {
            NodeKind::File(FileData::Remote { id, size }) => (*id, *size),
            _ => {
                return;
            },
        };
        self.set_kind(node, NodeKind::File(FileData::Loading { size }));
        self.queue_file(id, Pending::File(node));
    }

    pub(crate) fn set_kind(&mut self, node: usize, kind: NodeKind)
        requires
            node < old(self)@.nodes.len(),
        ensures
            final(self)@ == old(self)@.with_kind(node, kind@),
            old(self)@.valid() && kind@ is File && old(self)@.nodes[node as int].kind !is Directory
                ==> final(self)@.valid(),
    {
        let ghost model = kind@;
        self.nodes[node].kind = kind;
        assert(node_models(self.nodes@) =~= old(self)@.with_kind(node, model).nodes);
        proof {
            if old(self)@.valid() && model is File && old(self)@.nodes[node as int].kind !is Directory {
                let before = old(self)@;
                let after = self@;
                assert forall|i: int| 0 <= i < after.nodes.len() implies sound_node(
                    #[trigger] after.nodes[i],
                    after.nodes.len(),
                ) by {
                    assert(sound_node(before.nodes[i], before.nodes.len()));
                }
                assert(before.nodes[0].kind is Directory);
            }
        }
    }

    /// Adds a node to a directory.
    ///
    /// # Errors
    ///
    /// Returns an error number if the parent is no directory or has an entry of
    /// that name.
    pub(crate) fn add_node(&mut self, parent: usize, node: Node) -> (r: Result<usize, u32>)
        requires
            old(self)@.sound_tree(),
            parent < old(self)@.nodes.len(),
            node@.kind matches NodeKindModel::Directory(children) ==> children.len() == 0,
        ensures
            match r {
                Ok(index) => index == old(self)@.nodes.len() && old(self)@.with_node(parent, node@)
                    == Ok::<FsModel, u32>(final(self)@) && final(self)@.sound_tree(),
                Err(errno) => old(self)@.with_node(parent, node@) == Err::<FsModel, u32>(errno)
                    && final(self)@ == old(self)@,
            },
    {
        let index: usize = self.nodes.len();
        let mut node: Node = node;
        let ghost model = node@;
        let ghost before = self@;
        match &self.nodes[parent].kind {
            NodeKind::Directory(children) => {
                if find_name(children, node.name.as_str()) < children.len() {
                    return Err(EEXIST);
                }
            },
            _ => {
                return Err(ENOTDIR);
            },
        }
        match &mut self.nodes[parent].kind {
            NodeKind::Directory(children) => {
                let place: usize = find_place(children, node.name.as_str());
                let child: Child = Child { name: copy_text(node.name.as_str()), node: index };
                let ghost old_children = children@;
                children.insert(place, child);
                assert(child_models(children@) =~= with_child(
                    child_models(old_children),
                    model.name,
                    index,
                ));
            },
            _ => {
                return Err(ENOTDIR);
            },
        }
        assert(self@.nodes =~= before.with_kind(parent, self.nodes@[parent as int]@.kind).nodes);
        node.parent = parent;
        self.nodes.push(node);
        assert(self@.nodes =~= before.with_kind(
            parent,
            NodeKindModel::Directory(
                with_child(
                    before.nodes[parent as int].kind->Directory_0,
                    model.name,
                    index,
                ),
            ),
        ).nodes.push(NodeModel { parent, ..model }));
        proof {
            assert(self.nodes.len() <= usize::MAX);
            lemma_with_node_sound(before, parent, model);
        }
        Ok(index)
    }
}

/// The rest of the first line from `i` on that starts with a key.
pub open spec fn value_from(lines: Seq<Seq<char>>, i: nat, key: Seq<char>) -> Option<Seq<char>>
    decreases lines.len() - i,
{
    if i >= lines.len() {
        None
    } else if listing::starts_with(lines[i as int], key) {
        Some(lines[i as int].skip(key.len() as int))
    } else {
        value_from(lines, i + 1, key)
    }
}

/// The number of the root's file list, which the head file names.
pub open spec fn root_id(source: Seq<char>) -> Option<nat> {
    match value_from(listing::lines(source), 0, "RootID:"@) {
        Some(value) => listing::number(listing::trimmed(value), 16, u64::MAX as nat),
        None => None,
    }
}

fn find_root_id(source: &str) -> (r: Option<u64>)
    ensures
        match r {
            Some(id) => root_id(source@) == Some(id as nat),
            None => root_id(source@) is None,
        },
{
    let lines: Vec<String> = listing::split_lines(source);
    let mut i: usize = 0;
    while i < lines.len()
        invariant
            i <= lines@.len(),
            listing::views(lines@) == listing::lines(source@),
            value_from(listing::lines(source@), i as nat, "RootID:"@) == value_from(
                listing::lines(source@),
                0,
                "RootID:"@,
            ),
        decreases lines@.len() - i,
    {
        assert(listing::views(lines@)[i as int] == lines@[i as int]@);
        match listing::strip_start(lines[i].as_str(), "RootID:") {
            Some(value) => {
                let digits: String = listing::trim(value.as_str());
                return listing::parse_number(digits.as_str(), 16, u64::MAX);
            },
            None => {},
        }
        i = i + 1;
    }
    None
}

/// The bytes that hexadecimal digits spell, or an error number.
pub open spec fn unhex(digits: Seq<char>) -> Result<Seq<u8>, u32> {
    let data = vstd::utf8::encode_utf8(digits);
    if data.len() % 2 != 0 {
        Err(EINVAL)
    } else {
        match listing::unhex_from(data, 0, Seq::empty()) {
            Some(decoded) => Ok(decoded),
            None => Err(EPROTO),
        }
    }
}

fn decode_hex(digits: &str) -> (r: Result<Vec<u8>, u32>)
    ensures
        match r {
            Ok(data) => unhex(digits@) == Ok::<Seq<u8>, u32>(data@),
            Err(errno) => unhex(digits@) == Err::<Seq<u8>, u32>(errno),
        },
{
    let data: Vec<u8> = text::bytes_of(digits);
    if data.len() % 2 != 0 {
        return Err(EINVAL);
    }
    match listing::decode_pairs(data.as_slice()) {
        Some(decoded) => Ok(decoded),
        None => Err(EPROTO),
    }
}

impl FsModel {
    /// A filesystem that has asked for its head file.
    pub open spec fn fresh(base_url: Seq<char>, password: Seq<char>) -> FsModel {
        FsModel {
            base_url: text::trimmed_end(base_url, '/'),
            password,
            nodes: seq![root_node()],
            fids: Map::empty(),
            msize: MAX_MESSAGE,
            next_request_id: 1,
            outgoing: Seq::empty(),
            pending: Map::empty(),
            command_replies: Map::empty(),
            initialized: false,
        }.queued("head"@, Pending::Head)
    }

    /// The filesystem after the answer to an HTTP request.
    pub open spec fn completed(self, id: u32, data: Seq<u8>) -> (Result<(), DeviceError>, FsModel) {
        let rest = FsModel { pending: self.pending.remove(id), ..self };
        let source = vstd::utf8::decode_utf8(data);
        if !self.pending.contains_key(id) {
            (Err(DeviceError::Backend), self)
        } else {
            match self.pending[id] {
                Pending::Head => if !vstd::utf8::valid_utf8(data) || root_id(source) is None {
                    (Err(DeviceError::Backend), rest)
                } else {
                    (
                        Ok(()),
                        rest.queued(
                            "files/"@ + text::padded_hexadecimal(root_id(source)->0, 16),
                            Pending::FileList,
                        ),
                    )
                },
                Pending::FileList => if !vstd::utf8::valid_utf8(data) {
                    (Err(DeviceError::Backend), rest)
                } else {
                    let (sound, after) = rest.listed(source);
                    (
                        if sound {
                            Ok(())
                        } else {
                            Err(DeviceError::Backend)
                        },
                        after,
                    )
                },
                Pending::File(node) => match self.nodes[node as int].kind {
                    NodeKindModel::File(DataModel::Loading { size }) if data.len() == size => (
                        Ok(()),
                        rest.with_kind(node, NodeKindModel::File(DataModel::Local(data))),
                    ),
                    _ => (Err(DeviceError::Backend), rest),
                },
            }
        }
    }

    /// The filesystem after a command to the command file: `pbkdf2` with a
    /// password, a salt, a number of rounds and a length leaves a key to be
    /// read.
    pub open spec fn commanded(self, fid: u32, data: Seq<u8>) -> Result<FsModel, u32> {
        if !vstd::utf8::valid_utf8(data) {
            Err(EINVAL)
        } else {
            match listing::fields(vstd::utf8::decode_utf8(data)) {
                None => Err(EPROTO),
                Some(f) => if f.len() != 5 || f[0] != "pbkdf2"@ {
                    Err(EIO)
                } else {
                    match (unhex(f[1]), unhex(f[2])) {
                        (Err(errno), _) => Err(errno),
                        (_, Err(errno)) => Err(errno),
                        (Ok(password), Ok(salt)) => match (
                            listing::number(f[3], 10, u32::MAX as nat),
                            listing::number(f[4], 10, 4096),
                        ) {
                            (Some(iterations), Some(len)) if iterations > 0 && len > 0 => Ok(
                                FsModel {
                                    command_replies: self.command_replies.insert(
                                        fid,
                                        crypto::derived_bytes(
                                            password,
                                            salt,
                                            iterations as u32,
                                            len,
                                        ),
                                    ),
                                    ..self
                                },
                            ),
                            _ => Err(EINVAL),
                        },
                    }
                },
            }
        }
    }
}

impl HttpNineP {
    #[must_use]
    pub fn new(base_url: &str, password: String) -> (r: Self)
        ensures
            r@ == FsModel::fresh(base_url@, password@),
            r@.valid(),
    {
        let children: Vec<Child> = Vec::new();
        assert(child_models(children@) =~= Seq::empty());
        let mut nodes: Vec<Node> = Vec::new();
        nodes.push(
            Node {
                parent: 0,
                name: String::new(),
                mode: 0x1ed,
                uid: 0,
                gid: 0,
                mtime: 0,
                version: 0,
                kind: NodeKind::Directory(children),
            },
        );
        assert(nodes@[0]@.name =~= Seq::empty());
        assert(node_models(nodes@) =~= seq![root_node()]);
        let mut fs = HttpNineP {
            base_url: text::trim_end(base_url, '/'),
            password,
            nodes,
            fids: BTreeMap::new(),
            msize: MAX_MESSAGE,
            next_request_id: 1,
            outgoing: VecDeque::new(),
            pending: BTreeMap::new(),
            command_replies: BTreeMap::new(),
            initialized: false,
        };
        assert(host_requests(fs.outgoing@) =~= Seq::empty());
        assert(replies(fs.command_replies@) =~= Map::empty());
        fs.queue("head", Pending::Head);
        fs
    }

    fn reset_tree(&mut self)
        ensures
            final(self)@ == (FsModel { nodes: seq![root_node()], ..old(self)@ }),
    {
        let children: Vec<Child> = Vec::new();
        assert(child_models(children@) =~= Seq::empty());
        let mut nodes: Vec<Node> = Vec::new();
        nodes.push(
            Node {
                parent: 0,
                name: String::new(),
                mode: 0x1ed,
                uid: 0,
                gid: 0,
                mtime: 0,
                version: 0,
                kind: NodeKind::Directory(children),
            },
        );
        assert(nodes@[0]@.name =~= Seq::empty());
        self.nodes = nodes;
        assert(node_models(self.nodes@) =~= seq![root_node()]);
    }

    /// Adds what the lines of a file list from `from` on describe.
    fn parse_directory(&mut self, lines: &Vec<String>, from: usize) -> (r: bool)
        requires
            old(self)@.sound_tree(),
        ensures
            (r, final(self)@) == old(self)@.listed_from(
                listing::views(lines@),
                from as nat,
                seq![0usize],
            ),
            final(self)@.sound_tree(),
            final(self)@ == (FsModel { nodes: final(self)@.nodes, ..old(self)@ }),
    {
        let mut stack: Vec<usize> = Vec::new();
        stack.push(0);
        assert(stack@ =~= seq![0usize]);
        let mut i: usize = from;
        let ghost whole = self@.listed_from(listing::views(lines@), from as nat, seq![0usize]);
        while i < lines.len()
            invariant
                self@.sound_tree(),
                stack@.len() >= 1,
                stack@[0] == 0,
                forall|k: int| 0 <= k < stack@.len() ==> stack@[k] < self@.nodes.len(),
                whole == self@.listed_from(listing::views(lines@), i as nat, stack@),
                self@ == (FsModel { nodes: self@.nodes, ..old(self)@ }),
                whole == old(self)@.listed_from(
                    listing::views(lines@),
                    from as nat,
                    seq![0usize],
                ),
            decreases lines@.len() - i,
        {
            assert(listing::views(lines@)[i as int] == lines@[i as int]@);
            let line: String = listing::trim(lines[i].as_str());
            i = i + 1;
            let chars: Vec<char> = text::chars_of(line.as_str());
            if chars.len() == 0 || chars[0] == '#' {
                continue;
            }
            if text::same(line.as_str(), ".") {
                if stack.len() <= 1 {
                    return true;
                }
                stack.pop();
                assert(stack@.len() >= 1);
                continue;
            }
            let node: Node = match read_listed_node(line.as_str()) {
                Some(node) => node,
                None => {
                    return false;
                },
            };
            let is_directory: bool = match &node.kind {
                NodeKind::Directory(_) => true,
                _ => false,
            };
            match self.add_node(stack[stack.len() - 1], node) {
                Ok(index) => {
                    if is_directory {
                        stack.push(index);
                    }
                },
                Err(_) => {
                    return false;
                },
            }
        }
        stack.len() == 1
    }

    /// Replaces the tree by that of a file list.
    fn parse_file_list(&mut self, source: &str) -> (r: bool)
        requires
            old(self)@.sound_tree(),
        ensures
            (r, final(self)@) == old(self)@.listed(source@),
            final(self)@.sound_tree(),
            final(self)@ == (FsModel {
                nodes: final(self)@.nodes,
                initialized: r || old(self)@.initialized,
                ..old(self)@
            }),
    {
        let lines: Vec<String> = listing::split_lines(source);
        if lines.len() == 0 {
            return false;
        }
        assert(listing::views(lines@)[0] == lines@[0]@);
        if !listing::text_holds(lines[0].as_str(), "Version: 1") && !listing::text_holds(
            lines[0].as_str(),
            "Version:1",
        ) {
            return false;
        }
        self.reset_tree();
        assert(self@.sound_tree()) by {
            assert(sound_node(root_node(), 1));
        }
        if !self.parse_directory(&lines, 1) {
            return false;
        }
        let command: Node = Node {
            parent: 0,
            name: copy_text(".fscmd"),
            mode: 0x1b6,
            uid: 0,
            gid: 0,
            mtime: 0,
            version: 0,
            kind: NodeKind::Command,
        };
        match self.add_node(0, command) {
            Ok(_) => {},
            Err(_) => {
                return false;
            },
        }
        let secret: Vec<u8> = text::bytes_of(self.password.as_str());
        let letters: Vec<char> = text::chars_of(self.password.as_str());
        if letters.len() != 0 {
            let file: Node = Node {
                parent: 0,
                name: copy_text(".fscmd_pwd"),
                mode: 0x180,
                uid: 0,
                gid: 0,
                mtime: 0,
                version: 0,
                kind: NodeKind::File(FileData::Local(secret)),
            };
            match self.add_node(0, file) {
                Ok(_) => {},
                Err(_) => {
                    return false;
                },
            }
        }
        self.initialized = true;
        true
    }

    pub fn next_request(&mut self) -> (r: Option<NinePHostRequest>)
        ensures
            match r {
                Some(request) => old(self)@.outgoing.len() > 0 && request@
                    == old(self)@.outgoing[0] && final(self)@ == (FsModel {
                    outgoing: old(self)@.outgoing.skip(1),
                    ..old(self)@
                }),
                None => old(self)@.outgoing.len() == 0 && final(self)@ == old(self)@,
            },
            old(self)@.valid() ==> final(self)@.valid(),
    {
        let request: Option<NinePHostRequest> = self.outgoing.pop_front();
        assert(request is Some ==> host_requests(self.outgoing@) =~= old(self)@.outgoing.skip(1));
        assert(request is None ==> host_requests(self.outgoing@) =~= old(self)@.outgoing);
        request
    }

    /// Supplies the answer to an HTTP request.
    ///
    /// # Errors
    ///
    /// Returns an error for an unknown request or a malformed answer.
    #[verifier::rlimit(30)]
    pub fn complete_request(&mut self, id: u32, data: Vec<u8>) -> (r: Result<(), DeviceError>)
        requires
            old(self)@.valid(),
        ensures
            (r, final(self)@) == old(self)@.completed(id, data@),
            final(self)@.valid(),
    {
        let ghost before = self@;
        let pending: Pending = match self.pending.remove(&id) {
            Some(pending) => pending,
            None => {
                assert(self.pending@ =~= before.pending);
                return Err(DeviceError::Backend);
            },
        };
        let ghost rest = self@;
        assert(rest.valid()) by {
            assert(rest == (FsModel { pending: before.pending.remove(id), ..before }));
            assert forall|a: u32| #[trigger] rest.pending.contains_key(a) implies
                before.pending.contains_key(a) && rest.pending[a] == before.pending[a] by {}
        }
        match pending {
            Pending::Head => {
                let source: String = match text::from_utf8(data) {
                    Some(source) => source,
                    None => {
                        return Err(DeviceError::Backend);
                    },
                };
                match find_root_id(source.as_str()) {
                    Some(root) => {
                        self.queue_file(root, Pending::FileList);
                        assert(self@.valid());
                        Ok(())
                    },
                    None => Err(DeviceError::Backend),
                }
            },
            Pending::FileList => {
                let source: String = match text::from_utf8(data) {
                    Some(source) => source,
                    None => {
                        return Err(DeviceError::Backend);
                    },
                };
                let sound: bool = self.parse_file_list(source.as_str());
                assert(self@.valid()) by {
                    assert forall|i: u32| !(#[trigger] rest.pending.contains_key(i)) by {
                        assert(before.pending.contains_key(id));
                    }
                }
                if sound {
                    Ok(())
                } else {
                    Err(DeviceError::Backend)
                }
            },
            Pending::File(node) => {
                let expected: u64 = match &self.nodes[node].kind {
                    NodeKind::File(FileData::Loading { size }) => *size,
                    _ => {
                        return Err(DeviceError::Backend);
                    },
                };
                if data.len() as u64 != expected {
                    return Err(DeviceError::Backend);
                }
                self.set_kind(node, NodeKind::File(FileData::Local(data)));
                Ok(())
            },
        }
    }

    /// The node that a directory has under a name.
    ///
    /// # Errors
    ///
    /// Returns an error number if there is none.
    pub fn child(&self, node: usize, name: &str) -> (r: Result<usize, u32>)
        requires
            node < self@.nodes.len(),
        ensures
            r == self@.child_node(node, name@),
    {
        match &self.nodes[node].kind {
            NodeKind::Directory(children) => {
                let place: usize = find_name(children, name);
                if place < children.len() {
                    Ok(children[place].node)
                } else {
                    Err(ENOENT)
                }
            },
            _ => Err(ENOTDIR),
        }
    }

    /// Runs a command that was written to the command file.
    ///
    /// # Errors
    ///
    /// Returns an error number for an unknown or malformed command.
    pub fn command(&mut self, fid: u32, data: &[u8]) -> (r: Result<(), u32>)
        ensures
            match r {
                Ok(_) => old(self)@.commanded(fid, data@) == Ok::<FsModel, u32>(final(self)@),
                Err(errno) => old(self)@.commanded(fid, data@) == Err::<FsModel, u32>(errno)
                    && final(self)@ == old(self)@,
            },
            old(self)@.valid() ==> final(self)@.valid(),
    {
        let copy: Vec<u8> = bytes::copy_range(data, 0, data.len());
        assert(copy@ =~= data@);
        let source: String = match text::from_utf8(copy) {
            Some(source) => source,
            None => {
                return Err(EINVAL);
            },
        };
        let f: Vec<String> = match listing::split_fields(source.as_str()) {
            Some(f) => f,
            None => {
                return Err(EPROTO);
            },
        };
        let ghost views = listing::views(f@);
        if f.len() != 5 || !text::same(f[0].as_str(), "pbkdf2") {
            return Err(EIO);
        }
        assert(views[1] == f@[1]@ && views[2] == f@[2]@ && views[3] == f@[3]@ && views[4] == f@[4]@);
        let password: Vec<u8> = match decode_hex(f[1].as_str()) {
            Ok(password) => password,
            Err(errno) => {
                return Err(errno);
            },
        };
        let salt: Vec<u8> = match decode_hex(f[2].as_str()) {
            Ok(salt) => salt,
            Err(errno) => {
                return Err(errno);
            },
        };
        let (iterations, len) = match (
            listing::parse_number(f[3].as_str(), 10, 0xffff_ffff),
            listing::parse_number(f[4].as_str(), 10, 4096),
        ) {
            (Some(iterations), Some(len)) => (iterations as u32, len as usize),
            _ => {
                return Err(EINVAL);
            },
        };
        if len == 0 {
            return Err(EINVAL);
        }
        let mut reply: Vec<u8> = bytes::zeros(len);
        match crypto::derive_key(
            password.as_slice(),
            salt.as_slice(),
            iterations,
            reply.as_mut_slice(),
        ) {
            Ok(()) => {},
            Err(_) => {
                return Err(EINVAL);
            },
        }
        let ghost model = reply@;
        self.command_replies.insert(fid, reply);
        assert(replies(self.command_replies@) =~= old(self)@.command_replies.insert(fid, model));
        Ok(())
    }
}

} // verus!
