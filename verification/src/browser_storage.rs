//! Browser-owned HTTP requests and cacheable storage formats.

use std::collections::{BTreeMap, VecDeque};
use vstd::prelude::*;
use vstd::string::StringExecFns;
use crate::bytes;
use crate::config::{self, Object, Value};
use crate::crypto::{self, CryptoError};
use crate::text;
use crate::virtio_devices::{BlockBackend, BlockRequestStatus, DeviceError};

verus! {

broadcast use vstd::std_specs::btree::group_btree_axioms;

pub const SECTOR_SIZE: usize = 512;
pub const CLUSTER_SIZE: usize = 4096;

#[derive(Clone, Debug, PartialEq, Eq)]
pub enum HttpMethod {
    Get,
    Post(Vec<u8>),
}

#[derive(Clone, Debug, PartialEq, Eq)]
pub struct HttpRequest {
    pub id: u32,
    pub url: String,
    pub method: HttpMethod,
    pub authorization: Option<(String, String)>,
}

/// The model of a method.
pub enum MethodModel {
    Get,
    Post(Seq<u8>),
}

/// The model of a request.
pub struct RequestModel {
    pub id: u32,
    pub url: Seq<char>,
    pub method: MethodModel,
    pub authorization: Option<(Seq<char>, Seq<char>)>,
}

impl View for HttpMethod {
    type V = MethodModel;

    open spec fn view(&self) -> MethodModel {
        match self {
            HttpMethod::Get => MethodModel::Get,
            HttpMethod::Post(data) => MethodModel::Post(data@),
        }
    }
}

/// The characters of a name and a password that may be missing.
pub open spec fn credentials(pair: Option<(String, String)>) -> Option<(Seq<char>, Seq<char>)> {
    match pair {
        Some((name, password)) => Some((name@, password@)),
        None => None,
    }
}

impl View for HttpRequest {
    type V = RequestModel;

    open spec fn view(&self) -> RequestModel {
        RequestModel {
            id: self.id,
            url: self.url@,
            method: self.method@,
            authorization: credentials(self.authorization),
        }
    }
}

#[derive(Clone, Debug, PartialEq, Eq)]
pub enum StorageError {
    InvalidManifest(&'static str),
    InvalidResponse,
    UnknownRequest,
    MissingBlock(u32),
    OutOfRange,
    Crypto(CryptoError),
}

impl From<CryptoError> for StorageError {
    fn from(error: CryptoError) -> (r: Self) {
        StorageError::Crypto(error)
    }
}

impl vstd::std_specs::convert::FromSpecImpl<CryptoError> for StorageError {
    open spec fn obeys_from_spec() -> bool {
        true
    }

    open spec fn from_spec(error: CryptoError) -> Self {
        StorageError::Crypto(error)
    }
}

/// Requests that wait to be sent, and those that wait for an answer.
pub struct HttpQueue {
    pub next_id: u32,
    pub pending: BTreeMap<u32, String>,
    pub outgoing: VecDeque<HttpRequest>,
}

/// The model of a request queue.
#[verifier::ext_equal]
pub struct QueueModel {
    pub next_id: u32,
    pub pending: Map<u32, Seq<char>>,
    pub outgoing: Seq<RequestModel>,
}

/// The characters of every text of a map.
pub open spec fn texts(pending: Map<u32, String>) -> Map<u32, Seq<char>> {
    pending.map_values(|url: String| url@)
}

/// The models of a list of requests.
pub open spec fn request_models(requests: Seq<HttpRequest>) -> Seq<RequestModel> {
    requests.map_values(|request: HttpRequest| request@)
}

impl View for HttpQueue {
    type V = QueueModel;

    open spec fn view(&self) -> QueueModel {
        QueueModel {
            next_id: self.next_id,
            pending: texts(self.pending@),
            outgoing: request_models(self.outgoing@),
        }
    }
}

/// The identifier behind another one; zero is skipped.
pub open spec fn following_id(id: u32) -> u32 {
    if id == u32::MAX {
        1
    } else {
        (id + 1) as u32
    }
}

impl QueueModel {
    pub open spec fn initial() -> QueueModel {
        QueueModel { next_id: 0, pending: Map::empty(), outgoing: Seq::empty() }
    }

    pub open spec fn requested(
        self,
        url: Seq<char>,
        method: MethodModel,
        authorization: Option<(Seq<char>, Seq<char>)>,
    ) -> QueueModel {
        let id = following_id(self.next_id);
        QueueModel {
            next_id: id,
            pending: self.pending.insert(id, url),
            outgoing: self.outgoing.push(RequestModel { id, url, method, authorization }),
        }
    }

    /// Removes the oldest request that waits to be sent.
    pub open spec fn sent(self) -> QueueModel {
        if self.outgoing.len() == 0 {
            self
        } else {
            QueueModel { outgoing: self.outgoing.skip(1), ..self }
        }
    }
}

impl Default for HttpQueue {
    fn default() -> (r: Self)
        ensures
            r@ == QueueModel::initial(),
    {
        let r = HttpQueue { next_id: 0, pending: BTreeMap::new(), outgoing: VecDeque::new() };
        assert(r@ =~= QueueModel::initial());
        r
    }
}

impl HttpQueue {
    /// Queues a GET and returns its stable request identifier.
    pub fn get(&mut self, url: String) -> (r: u32)
        ensures
            final(self)@ == old(self)@.requested(url@, MethodModel::Get, None),
            r == final(self)@.next_id,
    {
        self.request(url, HttpMethod::Get, None)
    }

    /// Queues an HTTP request and returns its stable identifier.
    pub fn request(
        &mut self,
        url: String,
        method: HttpMethod,
        authorization: Option<(String, String)>,
    ) -> (r: u32)
        ensures
            final(self)@ == old(self)@.requested(url@, method@, credentials(authorization)),
            r == final(self)@.next_id,
    {
        let id: u32 = if self.next_id == u32::MAX {
            1
        } else {
            self.next_id + 1
        };
        self.next_id = id;
        let ghost expected = old(self)@.requested(url@, method@, credentials(authorization));
        let kept: String = url.clone();
        self.pending.insert(id, kept);
        let request = HttpRequest { id, url, method, authorization };
        assert(request@ == expected.outgoing.last());
        self.outgoing.push_back(request);
        assert(texts(self.pending@) =~= expected.pending);
        assert(request_models(self.outgoing@) =~= expected.outgoing);
        id
    }

    /// Removes the next request for delivery to the browser host.
    pub fn next_request(&mut self) -> (r: Option<HttpRequest>)
        ensures
            match r {
                Some(request) => old(self)@.outgoing.len() > 0 && request@
                    == old(self)@.outgoing[0],
                None => old(self)@.outgoing.len() == 0,
            },
            final(self)@ == old(self)@.sent(),
    {
        let request: Option<HttpRequest> = self.outgoing.pop_front();
        assert(request is Some ==> request_models(self.outgoing@) =~= old(self)@.outgoing.skip(1));
        assert(request is None ==> request_models(self.outgoing@) =~= old(self)@.outgoing);
        request
    }

    /// Completes a pending request and returns its URL.
    ///
    /// # Errors
    ///
    /// Returns an error when `id` is not pending.
    pub fn complete(&mut self, id: u32) -> (r: Result<String, StorageError>)
        ensures
            match r {
                Ok(url) => old(self)@.pending.contains_key(id) && url@ == old(self)@.pending[id],
                Err(error) => !old(self)@.pending.contains_key(id) && error is UnknownRequest,
            },
            final(self)@ == (QueueModel {
                pending: old(self)@.pending.remove(id),
                ..old(self)@
            }),
    {
        let url: Option<String> = self.pending.remove(&id);
        assert(texts(self.pending@) =~= old(self)@.pending.remove(id));
        match url {
            Some(url) => Ok(url),
            None => Err(StorageError::UnknownRequest),
        }
    }
}

/// A read-only disk image in blocks behind HTTP, with writes kept in memory.
pub struct HttpBlockStore {
    pub base_url: String,
    pub block_size: usize,
    pub block_count: u32,
    pub cache_limit: usize,
    pub clock: u64,
    pub cache: BTreeMap<u32, (u64, Vec<u8>)>,
    pub overlays: BTreeMap<u64, Vec<u8>>,
    pub pending: BTreeMap<u32, u32>,
    pub queue: HttpQueue,
}

/// The model of a block store. A cached block carries the time of its last
/// use; an overlay holds a cluster that was written to.
#[verifier::ext_equal]
pub struct StoreModel {
    pub base_url: Seq<char>,
    pub block_size: nat,
    pub block_count: u32,
    pub cache_limit: nat,
    pub clock: u64,
    pub cache: Map<u32, (u64, Seq<u8>)>,
    pub overlays: Map<u64, Seq<u8>>,
    pub pending: Map<u32, u32>,
    pub queue: QueueModel,
}

/// The contents of cached blocks.
pub open spec fn cached(cache: Map<u32, (u64, Vec<u8>)>) -> Map<u32, (u64, Seq<u8>)> {
    cache.map_values(|entry: (u64, Vec<u8>)| (entry.0, entry.1@))
}

/// The contents of overlays.
pub open spec fn overlaid(overlays: Map<u64, Vec<u8>>) -> Map<u64, Seq<u8>> {
    overlays.map_values(|data: Vec<u8>| data@)
}

impl View for HttpBlockStore {
    type V = StoreModel;

    open spec fn view(&self) -> StoreModel {
        StoreModel {
            base_url: self.base_url@,
            block_size: self.block_size as nat,
            block_count: self.block_count,
            cache_limit: self.cache_limit as nat,
            clock: self.clock,
            cache: cached(self.cache@),
            overlays: overlaid(self.overlays@),
            pending: self.pending@,
            queue: self.queue@,
        }
    }
}

pub open spec fn zero_bytes(len: nat) -> Seq<u8> {
    Seq::new(len, |i: int| 0u8)
}

impl StoreModel {
    /// The invariant: the store is sound, and its cached blocks fit the limit.
    pub open spec fn valid(self) -> bool {
        self.sound() && self.cache_fits()
    }

    /// Whether the cached blocks fit the limit.
    pub open spec fn cache_fits(self) -> bool {
        self.cache.dom().len() * self.block_size <= self.cache_limit
    }

    /// Blocks hold whole sectors, every piece of data has its size, the cache
    /// has room for a block, and what is on its way is sound.
    pub open spec fn sound(self) -> bool {
        &&& 0 < self.block_size <= 0x200_0000_0000
        &&& self.block_size % 512 == 0
        &&& self.block_size <= self.cache_limit
        &&& self.cache.dom().finite()
        &&& forall|block: u32| #[trigger]
            self.cache.contains_key(block) ==> block < self.block_count && self.cache[block].1.len()
                == self.block_size
        &&& forall|cluster: u64| #[trigger]
            self.overlays.contains_key(cluster) ==> self.overlays[cluster].len() == 4096
        &&& self.requests_sound()
    }

    /// Every request that waits for an answer is for a block of the image that
    /// is not here, and no two are for the same block.
    pub open spec fn requests_sound(self) -> bool {
        &&& self.pending.dom() == self.queue.pending.dom()
        &&& forall|id: u32| #[trigger]
            self.pending.contains_key(id) ==> self.pending[id] < self.block_count
                && !self.cache.contains_key(self.pending[id])
        &&& forall|a: u32, b: u32| #[trigger]
            self.pending.contains_key(a) && #[trigger] self.pending.contains_key(b)
                && self.pending[a] == self.pending[b] ==> a == b
    }

    pub open spec fn sectors_per_block(self) -> nat {
        self.block_size / 512
    }

    pub open spec fn capacity(self) -> nat {
        self.block_count as nat * self.sectors_per_block()
    }

    pub open spec fn in_range(self, sector: u64, len: nat) -> bool {
        len > 0 && len % 512 == 0 && sector + len / 512 <= self.capacity()
    }

    /// The address of a block.
    pub open spec fn block_url(self, block: u32) -> Seq<char> {
        self.base_url + "blk"@ + text::padded(block as nat, 9) + ".bin"@
    }

    /// Asks for a block, unless it is there or on its way.
    pub open spec fn asked(self, block: u32) -> (Result<(), StorageError>, StoreModel) {
        if block >= self.block_count {
            (Err(StorageError::OutOfRange), self)
        } else if self.cache.contains_key(block) || self.pending.contains_value(block) {
            (Ok(()), self)
        } else {
            let queue = self.queue.requested(self.block_url(block), MethodModel::Get, None);
            (
                Ok(()),
                StoreModel { queue, pending: self.pending.insert(queue.next_id, block), ..self },
            )
        }
    }

    /// Reads a sector from the overlay or the cache; a missing block is asked
    /// for.
    pub open spec fn reads_sector(self, sector: u64) -> (
        Result<Seq<u8>, StorageError>,
        StoreModel,
    ) {
        let cluster = sector / 8;
        let block = (sector as nat / self.sectors_per_block()) as u32;
        if self.overlays.contains_key(cluster) {
            let start = (sector % 8) * 512;
            (Ok(self.overlays[cluster].subrange(start, start + 512)), self)
        } else if !self.cache.contains_key(block) {
            match self.asked(block) {
                (Err(error), after) => (Err(error), after),
                (Ok(_), after) => (Err(StorageError::MissingBlock(block)), after),
            }
        } else {
            let start = (sector as nat % self.sectors_per_block()) * 512;
            let data = self.cache[block].1;
            let clock = self.clock.wrapping_add(1);
            (
                Ok(data.subrange(start as int, (start + 512) as int)),
                StoreModel { clock, cache: self.cache.insert(block, (clock, data)), ..self },
            )
        }
    }

    /// Reads sectors into a buffer, from its `i`th sector on.
    pub open spec fn reads_from(self, sector: u64, data: Seq<u8>, i: nat) -> (
        Result<(), StorageError>,
        Seq<u8>,
        StoreModel,
    )
        decreases data.len() - i * 512,
    {
        if (i + 1) * 512 > data.len() {
            (Ok(()), data, self)
        } else {
            match self.reads_sector((sector + i) as u64) {
                (Err(error), after) => (Err(error), data, after),
                (Ok(bytes), after) => after.reads_from(
                    sector,
                    bytes::spliced(data, (i * 512) as int, bytes),
                    i + 1,
                ),
            }
        }
    }

    pub open spec fn reads(self, sector: u64, data: Seq<u8>) -> (
        Result<(), StorageError>,
        Seq<u8>,
        StoreModel,
    ) {
        if !self.in_range(sector, data.len()) {
            (Err(StorageError::OutOfRange), data, self)
        } else {
            self.reads_from(sector, data, 0)
        }
    }

    /// The number of sectors of a cluster that lie inside the image.
    pub open spec fn cluster_sectors(self, cluster: u64) -> nat {
        let first = cluster * 8;
        if first + 8 <= self.capacity() {
            8
        } else if first < self.capacity() {
            (self.capacity() - first) as nat
        } else {
            0
        }
    }

    /// Makes sure that a cluster has an overlay. Past the end of the image it
    /// holds zeros.
    pub open spec fn covered(self, cluster: u64) -> (Result<(), StorageError>, StoreModel) {
        if self.overlays.contains_key(cluster) {
            (Ok(()), self)
        } else {
            let len = self.cluster_sectors(cluster) * 512;
            let (r, data, after) = self.reads((cluster * 8) as u64, zero_bytes(len));
            match r {
                Err(error) => (Err(error), after),
                Ok(_) => (
                    Ok(()),
                    StoreModel {
                        overlays: after.overlays.insert(
                            cluster,
                            data + zero_bytes((4096 - len) as nat),
                        ),
                        ..after
                    },
                ),
            }
        }
    }

    /// Writes a sector to the overlay of its cluster.
    pub open spec fn writes_sector(self, sector: u64, data: Seq<u8>) -> (
        Result<(), StorageError>,
        StoreModel,
    ) {
        let cluster = sector / 8;
        match self.covered(cluster) {
            (Err(error), after) => (Err(error), after),
            (Ok(_), after) => (
                Ok(()),
                StoreModel {
                    overlays: after.overlays.insert(
                        cluster,
                        bytes::spliced(after.overlays[cluster], (sector % 8) * 512, data),
                    ),
                    ..after
                },
            ),
        }
    }

    /// Writes sectors, from the `i`th one of `data` on.
    pub open spec fn writes_from(self, sector: u64, data: Seq<u8>, i: nat) -> (
        Result<(), StorageError>,
        StoreModel,
    )
        decreases data.len() - i * 512,
    {
        if (i + 1) * 512 > data.len() {
            (Ok(()), self)
        } else {
            match self.writes_sector(
                (sector + i) as u64,
                data.subrange((i * 512) as int, (i * 512 + 512) as int),
            ) {
                (Err(error), after) => (Err(error), after),
                (Ok(_), after) => after.writes_from(sector, data, i + 1),
            }
        }
    }

    pub open spec fn writes(self, sector: u64, data: Seq<u8>) -> (
        Result<(), StorageError>,
        StoreModel,
    ) {
        if !self.in_range(sector, data.len()) {
            (Err(StorageError::OutOfRange), self)
        } else {
            self.writes_from(sector, data, 0)
        }
    }

    /// Whether a cached block was used before another one; blocks of one age
    /// go by their number. The block `newest` comes last, whatever the clock
    /// said when it came.
    pub open spec fn older(self, a: u32, b: u32, newest: u32) -> bool {
        ||| b == newest
        ||| a != newest && (self.cache[a].0 < self.cache[b].0 || self.cache[a].0 == self.cache[b].0
            && a <= b)
    }

    pub open spec fn is_oldest(self, block: u32, newest: u32) -> bool {
        &&& self.cache.contains_key(block)
        &&& forall|other: u32| #[trigger]
            self.cache.contains_key(other) ==> self.older(block, other, newest)
    }

    /// Drops the blocks that were not used for longest, until the cache keeps
    /// its limit.
    pub open spec fn trimmed(self, newest: u32) -> StoreModel
        decreases self.cache.dom().len(),
    {
        if self.cache.dom().len() * self.block_size <= self.cache_limit
            || !self.cache.dom().finite() || self.cache.dom().len() == 0 {
            self
        } else {
            let block = choose|block: u32| self.is_oldest(block, newest);
            if self.cache.contains_key(block) {
                StoreModel { cache: self.cache.remove(block), ..self }.trimmed(newest)
            } else {
                self
            }
        }
    }

    /// The store without a request that waits for an answer.
    pub open spec fn answered(self, id: u32) -> StoreModel {
        StoreModel {
            queue: QueueModel { pending: self.queue.pending.remove(id), ..self.queue },
            pending: self.pending.remove(id),
            ..self
        }
    }

    /// Takes the answer to a request for a block.
    pub open spec fn completed(self, id: u32, data: Seq<u8>) -> (
        Result<(), StorageError>,
        StoreModel,
    ) {
        let answered = self.answered(id);
        if !self.queue.pending.contains_key(id) {
            (Err(StorageError::UnknownRequest), self)
        } else if !self.pending.contains_key(id) {
            (Err(StorageError::UnknownRequest), answered)
        } else if data.len() != self.block_size {
            (Err(StorageError::InvalidResponse), answered)
        } else {
            let clock = self.clock.wrapping_add(1);
            (
                Ok(()),
                StoreModel {
                    clock,
                    cache: self.cache.insert(self.pending[id], (clock, data)),
                    ..answered
                }.trimmed(self.pending[id]),
            )
        }
    }
}

/// A member of a manifest that has to be a positive number.
pub open spec fn positive(value: Option<config::Tree>, name: &'static str) -> Result<
    i32,
    StorageError,
> {
    match value {
        Some(config::Tree::Integer(number)) => if number > 0 {
            Ok(number)
        } else {
            Err(StorageError::InvalidManifest(name))
        },
        _ => Err(StorageError::InvalidManifest(name)),
    }
}

impl StoreModel {
    /// Asks for the blocks of a list, from its `i`th one on.
    pub open spec fn prefetched(self, blocks: Seq<config::Tree>, i: nat) -> Result<
        StoreModel,
        StorageError,
    >
        decreases blocks.len() - i,
    {
        if i >= blocks.len() {
            Ok(self)
        } else {
            match blocks[i as int] {
                config::Tree::Integer(block) => if block < 0 {
                    Err(StorageError::InvalidManifest("invalid prefetch block"))
                } else {
                    match self.asked(block as u32) {
                        (Err(error), _) => Err(error),
                        (Ok(_), after) => after.prefetched(blocks, i + 1),
                    }
                },
                _ => Err(StorageError::InvalidManifest("prefetch integer expected")),
            }
        }
    }

    /// The store that a manifest describes. Its block size is a power of two,
    /// in KiB.
    pub open spec fn described(
        url: Seq<char>,
        members: config::Members,
        cache_limit: nat,
    ) -> Result<StoreModel, StorageError> {
        match positive(config::member(members, "block_size"@), "block_size") {
            Err(error) => Err(error),
            Ok(kib) => {
                let size = kib * 1024;
                if size > usize::MAX || !crate::virtio::power_of_two(size as nat) {
                    Err(StorageError::InvalidManifest("invalid block_size"))
                } else {
                    match positive(config::member(members, "n_block"@), "n_block") {
                        Err(error) => Err(error),
                        Ok(count) => {
                            let store = StoreModel {
                                base_url: text::through_last(url, '/'),
                                block_size: size as nat,
                                block_count: count as u32,
                                cache_limit: if cache_limit > size {
                                    cache_limit
                                } else {
                                    size as nat
                                },
                                clock: 0,
                                cache: Map::empty(),
                                overlays: Map::empty(),
                                pending: Map::empty(),
                                queue: QueueModel::initial(),
                            };
                            match config::member(members, "prefetch"@) {
                                None => Ok(store),
                                Some(config::Tree::List(blocks)) => store.prefetched(blocks, 0),
                                Some(_) => Err(
                                    StorageError::InvalidManifest("prefetch array expected"),
                                ),
                            }
                        },
                    }
                }
            },
        }
    }

    pub open spec fn from_source(url: Seq<char>, source: Seq<u8>, cache_limit: nat) -> Result<
        StoreModel,
        StorageError,
    > {
        match config::parsed(source) {
            Err(_) => Err(StorageError::InvalidManifest("syntax")),
            Ok(config::Tree::Record(members)) => StoreModel::described(url, members, cache_limit),
            Ok(_) => Err(StorageError::InvalidManifest("object expected")),
        }
    }
}

fn positive_integer(value: Option<&Value>, name: &'static str) -> (r: Result<i32, StorageError>)
    ensures
        r == positive(
            match value {
                Some(value) => Some(value.tree()),
                None => None,
            },
            name,
        ),
        r matches Ok(number) ==> number > 0,
{
    match value {
        Some(value) => match value.as_integer() {
            Some(number) => {
                if number > 0 {
                    Ok(number)
                } else {
                    Err(StorageError::InvalidManifest(name))
                }
            },
            None => Err(StorageError::InvalidManifest(name)),
        },
        None => Err(StorageError::InvalidManifest(name)),
    }
}

fn size_is_power_of_two(size: usize) -> (r: bool)
    ensures
        r == crate::virtio::power_of_two(size as nat),
{
    let mut rest: usize = size;
    while rest > 1 && rest % 2 == 0
        invariant
            crate::virtio::power_of_two(size as nat) == crate::virtio::power_of_two(rest as nat),
        decreases rest,
    {
        rest = rest / 2;
    }
    rest == 1
}

impl HttpBlockStore {
    /// Parses the split-image descriptor of a disk.
    ///
    /// # Errors
    ///
    /// Returns an error for malformed descriptors or unsafe dimensions.
    pub fn from_manifest(manifest_url: &str, source: &str, cache_limit: usize) -> (r: Result<
        Self,
        StorageError,
    >)
        ensures
            match r {
                Ok(store) => StoreModel::from_source(
                    manifest_url@,
                    vstd::utf8::encode_utf8(source@),
                    cache_limit as nat,
                ) == Ok::<_, StorageError>(store@) && store@.valid(),
                Err(error) => StoreModel::from_source(
                    manifest_url@,
                    vstd::utf8::encode_utf8(source@),
                    cache_limit as nat,
                ) == Err::<StoreModel, _>(error),
            },
    {
        let value: Value = match config::parse_value(source) {
            Ok(value) => value,
            Err(_) => {
                return Err(StorageError::InvalidManifest("syntax"));
            },
        };
        let object: &Object = match value.as_object() {
            Some(object) => object,
            None => {
                return Err(StorageError::InvalidManifest("object expected"));
            },
        };
        let kib: i32 = match positive_integer(object.get("block_size"), "block_size") {
            Ok(kib) => kib,
            Err(error) => {
                return Err(error);
            },
        };
        let block_size: usize = match (kib as usize).checked_mul(1024) {
            Some(size) => size,
            None => {
                return Err(StorageError::InvalidManifest("invalid block_size"));
            },
        };
        if !size_is_power_of_two(block_size) {
            return Err(StorageError::InvalidManifest("invalid block_size"));
        }
        let block_count: i32 = match positive_integer(object.get("n_block"), "n_block") {
            Ok(count) => count,
            Err(error) => {
                return Err(error);
            },
        };
        let base_url: String = match text::up_to_last(manifest_url, '/') {
            Some(base) => base,
            None => {
                proof {
                    text::lemma_last_place(manifest_url@, '/');
                    assert(text::through_last(manifest_url@, '/') =~= Seq::empty());
                }
                String::new()
            },
        };
        proof {
            reveal_strlit("");
            assert(base_url@ =~= text::through_last(manifest_url@, '/'));
        }
        let mut store = HttpBlockStore {
            base_url,
            block_size,
            block_count: block_count as u32,
            cache_limit: if cache_limit > block_size {
                cache_limit
            } else {
                block_size
            },
            clock: 0,
            cache: BTreeMap::new(),
            overlays: BTreeMap::new(),
            pending: BTreeMap::new(),
            queue: HttpQueue::default(),
        };
        assert(store@.cache =~= Map::empty());
        assert(store@.overlays =~= Map::empty());
        match object.get("prefetch") {
            None => Ok(store),
            Some(list) => match list.as_array() {
                None => Err(StorageError::InvalidManifest("prefetch array expected")),
                Some(blocks) => match store.prefetch(blocks) {
                    Ok(()) => Ok(store),
                    Err(error) => Err(error),
                },
            },
        }
    }

    fn prefetch(&mut self, blocks: &[Value]) -> (r: Result<(), StorageError>)
        requires
            old(self)@.valid(),
        ensures
            match r {
                Ok(_) => old(self)@.prefetched(config::trees(blocks@), 0) == Ok::<_, StorageError>(
                    final(self)@,
                ) && final(self)@.valid(),
                Err(error) => old(self)@.prefetched(config::trees(blocks@), 0) == Err::<
                    StoreModel,
                    _,
                >(error),
            },
    {
        let mut i: usize = 0;
        while i < blocks.len()
            invariant
                i <= blocks.len(),
                self@.valid(),
                self@.prefetched(config::trees(blocks@), i as nat) == old(self)@.prefetched(
                    config::trees(blocks@),
                    0,
                ),
            decreases blocks.len() - i,
        {
            let block: i32 = match blocks[i].as_integer() {
                Some(block) => block,
                None => {
                    return Err(StorageError::InvalidManifest("prefetch integer expected"));
                },
            };
            if block < 0 {
                return Err(StorageError::InvalidManifest("invalid prefetch block"));
            }
            match self.request_block(block as u32) {
                Ok(()) => {},
                Err(error) => {
                    return Err(error);
                },
            }
            i = i + 1;
        }
        Ok(())
    }

    #[must_use]
    pub fn capacity_sectors(&self) -> (r: u64)
        requires
            self@.valid(),
        ensures
            r == self@.capacity(),
    {
        let per_block: u64 = (self.block_size / SECTOR_SIZE) as u64;
        proof {
            let n = self.block_count as int;
            let p = per_block as int;
            assert(n * p <= 0xffff_ffff * 0x1_0000_0000) by (nonlinear_arith)
                requires
                    0 <= n <= 0xffff_ffff,
                    0 <= p <= 0x1_0000_0000,
            ;
        }
        self.block_count as u64 * per_block
    }

    pub fn next_request(&mut self) -> (r: Option<HttpRequest>)
        ensures
            match r {
                Some(request) => old(self)@.queue.outgoing.len() > 0 && request@
                    == old(self)@.queue.outgoing[0],
                None => old(self)@.queue.outgoing.len() == 0,
            },
            final(self)@ == (StoreModel { queue: old(self)@.queue.sent(), ..old(self)@ }),
            old(self)@.valid() ==> final(self)@.valid(),
    {
        self.queue.next_request()
    }

    fn is_pending(&self, block: u32) -> (r: bool)
        ensures
            r == self@.pending.contains_value(block),
    {
        let mut blocks: Vec<u32> = Vec::new();
        for value in iter: self.pending.values()
            invariant
                blocks@ == iter.seq().unref().take(iter.index() as int),
                iter.index() == iter.seq().len() ==> blocks@ == iter.seq().unref(),
                iter.seq().unref().to_set() == self.pending@.values(),
        {
            blocks.push(*value);
            assert(iter.seq().unref().take(iter.index() + 1) =~= iter.seq().unref().take(
                iter.index() as int,
            ).push(*value));
        }
        assert(blocks@.to_set() =~= self.pending@.values());
        let mut i: usize = 0;
        while i < blocks.len()
            invariant
                i <= blocks.len(),
                blocks@.to_set() == self.pending@.values(),
                forall|j: int| 0 <= j < i ==> blocks@[j] != block,
            decreases blocks.len() - i,
        {
            if blocks[i] == block {
                assert(blocks@.to_set().contains(blocks@[i as int]));
                return true;
            }
            i = i + 1;
        }
        proof {
            if self.pending@.contains_value(block) {
                assert(self.pending@.values().contains(block));
                assert(blocks@.contains(block));
            }
        }
        false
    }

    fn request_block(&mut self, block: u32) -> (r: Result<(), StorageError>)
        requires
            old(self)@.valid(),
        ensures
            (r, final(self)@) == old(self)@.asked(block),
            final(self)@.valid(),
    {
        if block >= self.block_count {
            return Err(StorageError::OutOfRange);
        }
        if self.cache.contains_key(&block) || self.is_pending(block) {
            return Ok(());
        }
        let mut url: String = text::joined(self.base_url.as_str(), "blk");
        let number: String = text::padded_text(block as u64, 9);
        url.append(number.as_str());
        url.append(".bin");
        proof {
            lemma_asked(self@, block);
        }
        let id: u32 = self.queue.get(url);
        self.pending.insert(id, block);
        assert(self@ =~= old(self)@.asked(block).1);
        Ok(())
    }
}

/// A store stays valid when a block is asked for.
proof fn lemma_asked(m: StoreModel, block: u32)
    requires
        m.valid(),
    ensures
        m.asked(block).1.valid(),
{
    let after = m.asked(block).1;
    if after.pending != m.pending {
        let id = after.queue.next_id;
        assert(after.pending.dom() =~= after.queue.pending.dom());
        assert forall|a: u32, b: u32| #[trigger]
            after.pending.contains_key(a) && #[trigger] after.pending.contains_key(b)
                && after.pending[a] == after.pending[b] implies a == b by {
            if a != id {
                assert(m.pending.contains_key(a));
            }
            if b != id {
                assert(m.pending.contains_key(b));
            }
        }
        assert forall|a: u32| #[trigger] after.pending.contains_key(a) implies after.pending[a]
            < after.block_count && !after.cache.contains_key(after.pending[a]) by {
            if a != id {
                assert(m.pending.contains_key(a));
            }
        }
    }
}

impl HttpBlockStore {
    fn validate_range(&self, sector: u64, len: usize) -> (r: bool)
        requires
            self@.valid(),
        ensures
            r == self@.in_range(sector, len as nat),
    {
        if len == 0 || len % SECTOR_SIZE != 0 {
            return false;
        }
        match sector.checked_add((len / SECTOR_SIZE) as u64) {
            Some(end) => end <= self.capacity_sectors(),
            None => {
                let _ = self.capacity_sectors();
                false
            },
        }
    }

    fn read_sector(&mut self, sector: u64) -> (r: Result<Vec<u8>, StorageError>)
        requires
            old(self)@.valid(),
        ensures
            match r {
                Ok(data) => old(self)@.reads_sector(sector).0 == Ok::<_, StorageError>(data@)
                    && data@.len() == 512,
                Err(error) => old(self)@.reads_sector(sector).0 == Err::<Seq<u8>, _>(error),
            },
            final(self)@ == old(self)@.reads_sector(sector).1,
            final(self)@.valid(),
    {
        let cluster: u64 = sector / 8;
        match self.overlays.get(&cluster) {
            Some(overlay) => {
                assert(self@.overlays[cluster] == overlay@);
                let start: usize = (sector % 8) as usize * SECTOR_SIZE;
                return Ok(bytes::copy_range(overlay.as_slice(), start, SECTOR_SIZE));
            },
            None => {
                assert(!self@.overlays.contains_key(cluster));
            },
        }
        let per_block: u64 = (self.block_size / SECTOR_SIZE) as u64;
        let block: u32 = (sector / per_block) as u32;
        match self.cache.remove(&block) {
            None => {
                assert(self.cache@ =~= old(self).cache@);
                assert(self@ =~= old(self)@);
                match self.request_block(block) {
                    Ok(()) => Err(StorageError::MissingBlock(block)),
                    Err(error) => Err(error),
                }
            },
            Some((age, data)) => {
                assert(old(self)@.cache[block] == (age, data@));
                let clock: u64 = self.clock.wrapping_add(1);
                let start: usize = (sector % per_block) as usize * SECTOR_SIZE;
                proof {
                    let k = sector % per_block;
                    let p = per_block as int;
                    assert(k * 512 + 512 <= p * 512) by (nonlinear_arith)
                        requires
                            0 <= k < p,
                    ;
                }
                let sector_data: Vec<u8> = bytes::copy_range(data.as_slice(), start, SECTOR_SIZE);
                self.clock = clock;
                self.cache.insert(block, (clock, data));
                assert(self@.cache =~= old(self)@.cache.insert(block, (clock, data@)));
                Ok(sector_data)
            },
        }
    }

    /// Reads sectors, queuing the first missing HTTP block when necessary.
    ///
    /// # Errors
    ///
    /// Returns `MissingBlock` after queuing a fetch, or an error for an invalid range.
    pub fn read_sectors(&mut self, sector: u64, data: &mut [u8]) -> (r: Result<(), StorageError>)
        requires
            old(self)@.valid(),
        ensures
            (r, final(data)@, final(self)@) == old(self)@.reads(sector, old(data)@),
            final(data)@.len() == old(data)@.len(),
            final(self)@.valid(),
    {
        if !self.validate_range(sector, data.len()) {
            return Err(StorageError::OutOfRange);
        }
        let count: usize = data.len() / SECTOR_SIZE;
        let mut i: usize = 0;
        let ghost whole = self@.reads(sector, data@);
        let ghost capacity = self@.capacity();
        proof {
            lemma_capacity(self@);
        }
        while i < count
            invariant
                i <= count,
                count * 512 == data@.len() <= usize::MAX,
                data@.len() == old(data)@.len(),
                sector + count <= capacity <= u64::MAX,
                self@.valid(),
                whole == old(self)@.reads(sector, old(data)@),
                whole == self@.reads_from(sector, data@, i as nat),
            decreases count - i,
        {
            match self.read_sector(sector + i as u64) {
                Ok(bytes) => {
                    bytes::splice_slice(data, i * SECTOR_SIZE, bytes.as_slice());
                },
                Err(error) => {
                    return Err(error);
                },
            }
            i = i + 1;
        }
        Ok(())
    }

    fn cover(&mut self, cluster: u64) -> (r: Result<(), StorageError>)
        requires
            old(self)@.valid(),
            cluster <= u64::MAX / 8,
        ensures
            (r, final(self)@) == old(self)@.covered(cluster),
            final(self)@.valid(),
            r is Ok ==> final(self)@.overlays.contains_key(cluster),
    {
        if self.overlays.contains_key(&cluster) {
            return Ok(());
        }
        let capacity: u64 = self.capacity_sectors();
        let first: u64 = cluster * 8;
        let count: usize = if first >= capacity {
            0
        } else if capacity - first >= 8 {
            8
        } else {
            (capacity - first) as usize
        };
        assert(count == self@.cluster_sectors(cluster));
        let mut original: Vec<u8> = bytes::zeros(count * SECTOR_SIZE);
        assert(original@ =~= zero_bytes((count * 512) as nat));
        match self.read_sectors(first, original.as_mut_slice()) {
            Ok(()) => {
                let ghost before = self@;
                let ghost data = original@;
                original.resize(CLUSTER_SIZE, 0);
                assert(original@ =~= data + zero_bytes((4096 - count * 512) as nat));
                self.overlays.insert(cluster, original);
                assert(self@.overlays =~= before.overlays.insert(cluster, original@));
                Ok(())
            },
            Err(error) => Err(error),
        }
    }

    fn write_sector(&mut self, sector: u64, data: &[u8]) -> (r: Result<(), StorageError>)
        requires
            old(self)@.valid(),
            data@.len() == 512,
        ensures
            (r, final(self)@) == old(self)@.writes_sector(sector, data@),
            final(self)@.valid(),
    {
        let cluster: u64 = sector / 8;
        match self.cover(cluster) {
            Ok(()) => {},
            Err(error) => {
                return Err(error);
            },
        }
        let ghost before = self@;
        match self.overlays.remove(&cluster) {
            Some(overlay) => {
                let mut overlay: Vec<u8> = overlay;
                assert(before.overlays[cluster] == overlay@);
                bytes::splice(&mut overlay, (sector % 8) as usize * SECTOR_SIZE, data);
                self.overlays.insert(cluster, overlay);
                assert(self@.overlays =~= before.overlays.insert(cluster, overlay@));
                Ok(())
            },
            None => Err(StorageError::OutOfRange),
        }
    }

    /// Writes sectors into 4 KiB copy-on-write clusters.
    ///
    /// # Errors
    ///
    /// Returns `MissingBlock` when the original cluster must first be fetched.
    pub fn write_sectors(&mut self, sector: u64, data: &[u8]) -> (r: Result<(), StorageError>)
        requires
            old(self)@.valid(),
        ensures
            (r, final(self)@) == old(self)@.writes(sector, data@),
            final(self)@.valid(),
    {
        if !self.validate_range(sector, data.len()) {
            return Err(StorageError::OutOfRange);
        }
        let count: usize = data.len() / SECTOR_SIZE;
        let mut i: usize = 0;
        let ghost whole = self@.writes(sector, data@);
        let ghost capacity = self@.capacity();
        proof {
            lemma_capacity(self@);
        }
        while i < count
            invariant
                i <= count,
                count * 512 == data@.len() <= usize::MAX,
                sector + count <= capacity <= u64::MAX,
                self@.valid(),
                whole == old(self)@.writes(sector, data@),
                whole == self@.writes_from(sector, data@, i as nat),
            decreases count - i,
        {
            let chunk: Vec<u8> = bytes::copy_range(data, i * SECTOR_SIZE, SECTOR_SIZE);
            match self.write_sector(sector + i as u64, chunk.as_slice()) {
                Ok(()) => {},
                Err(error) => {
                    return Err(error);
                },
            }
            i = i + 1;
        }
        Ok(())
    }

    fn oldest(&self, newest: u32) -> (r: Option<u32>)
        ensures
            match r {
                Some(block) => self@.is_oldest(block, newest),
                None => self@.cache.dom().len() == 0,
            },
    {
        let mut blocks: Vec<u32> = Vec::new();
        for key in iter: self.cache.keys()
            invariant
                blocks@ == iter.seq().unref().take(iter.index() as int),
                iter.index() == iter.seq().len() ==> blocks@ == iter.seq().unref(),
                iter.seq().unref().to_set() == self.cache@.dom(),
        {
            blocks.push(*key);
            assert(iter.seq().unref().take(iter.index() + 1) =~= iter.seq().unref().take(
                iter.index() as int,
            ).push(*key));
        }
        assert(blocks@.to_set() =~= self.cache@.dom());
        assert(self@.cache.dom() =~= self.cache@.dom());
        if blocks.len() == 0 {
            assert(self.cache@.dom() =~= Set::empty()) by {
                assert forall|k: u32| !self.cache@.dom().contains(k) by {
                    assert(!blocks@.contains(k));
                }
            }
            return None;
        }
        let mut best: usize = 0;
        let mut i: usize = 1;
        assert forall|j: int| 0 <= j < blocks@.len() implies self@.cache.contains_key(
            #[trigger] blocks@[j],
        ) by {
            assert(blocks@.to_set().contains(blocks@[j]));
        }
        while i < blocks.len()
            invariant
                best < i <= blocks.len(),
                self@.cache.dom() == self.cache@.dom(),
                forall|j: int| 0 <= j < blocks@.len() ==> self@.cache.contains_key(
                    #[trigger] blocks@[j],
                ),
                forall|j: int|
                    0 <= j < i ==> self@.older(
                        blocks@[best as int],
                        #[trigger] blocks@[j],
                        newest,
                    ),
            decreases blocks.len() - i,
        {
            let a: u32 = blocks[best];
            let b: u32 = blocks[i];
            assert(self@.cache.contains_key(blocks@[best as int]));
            assert(self@.cache.contains_key(blocks@[i as int]));
            let age_a: u64 = match self.cache.get(&a) {
                Some(entry) => entry.0,
                None => 0,
            };
            let age_b: u64 = match self.cache.get(&b) {
                Some(entry) => entry.0,
                None => 0,
            };
            assert(self@.cache[a].0 == age_a && self@.cache[b].0 == age_b);
            if a == newest || b != newest && (age_b < age_a || age_b == age_a && b < a) {
                best = i;
            }
            i = i + 1;
        }
        assert forall|other: u32| #[trigger] self@.cache.contains_key(other) implies self@.older(
            blocks@[best as int],
            other,
            newest,
        ) by {
            assert(blocks@.to_set().contains(other));
            assert(blocks@.contains(other));
        }
        assert(self@.cache.contains_key(blocks@[best as int]));
        Some(blocks[best])
    }

    fn trim_cache(&mut self, newest: u32)
        requires
            old(self)@.sound(),
        ensures
            final(self)@ == old(self)@.trimmed(newest),
            final(self)@.valid(),
    {
        loop
            invariant
                self@.sound(),
                self@.trimmed(newest) == old(self)@.trimmed(newest),
            ensures
                self@.valid(),
                self@ == old(self)@.trimmed(newest),
            decreases self@.cache.dom().len(),
        {
            assert(self@.cache.dom() =~= self.cache@.dom());
            let count: usize = self.cache.len();
            proof {
                let n = count as int;
                let b = self.block_size as int;
                assert(n * b <= 0xffff_ffff_ffff_ffff * 0xffff_ffff_ffff_ffff) by (nonlinear_arith)
                    requires
                        0 <= n <= 0xffff_ffff_ffff_ffff,
                        0 <= b <= 0xffff_ffff_ffff_ffff,
                ;
            }
            let used: u128 = count as u128 * self.block_size as u128;
            if used <= self.cache_limit as u128 {
                break;
            }
            match self.oldest(newest) {
                None => {
                    break;
                },
                Some(block) => {
                    proof {
                        let chosen = choose|b: u32| self@.is_oldest(b, newest);
                        assert(self@.is_oldest(chosen, newest));
                        assert(self@.older(block, chosen, newest));
                        assert(self@.older(chosen, block, newest));
                    }
                    let ghost before = self@;
                    let _ = self.cache.remove(&block);
                    assert(self@.cache =~= before.cache.remove(block));
                },
            }
        }
    }

    /// Accepts one block response and makes it available to subsequent reads.
    ///
    /// # Errors
    ///
    /// Returns an error for an unknown request or a response of the wrong size.
    pub fn complete(&mut self, id: u32, data: Vec<u8>) -> (r: Result<(), StorageError>)
        requires
            old(self)@.valid(),
        ensures
            (r, final(self)@) == old(self)@.completed(id, data@),
            final(self)@.valid(),
    {
        let known: bool = self.queue.complete(id).is_ok();
        assert(self@.cache == old(self)@.cache && self@.overlays == old(self)@.overlays);
        if !known {
            assert(self@.queue.pending =~= old(self)@.queue.pending);
            return Err(StorageError::UnknownRequest);
        }
        proof {
            lemma_answered(old(self)@, id);
        }
        let block: u32 = match self.pending.remove(&id) {
            Some(block) => block,
            None => {
                return Err(StorageError::UnknownRequest);
            },
        };
        assert(self@ =~= old(self)@.answered(id));
        if data.len() != self.block_size {
            return Err(StorageError::InvalidResponse);
        }
        self.clock = self.clock.wrapping_add(1);
        let clock: u64 = self.clock;
        let ghost before = self@;
        self.cache.insert(block, (clock, data));
        assert(self@.cache =~= before.cache.insert(block, (clock, data@)));
        self.trim_cache(block);
        Ok(())
    }
}

/// A store stays valid when a request is answered, and nothing else waits for
/// the block.
proof fn lemma_answered(m: StoreModel, id: u32)
    requires
        m.valid(),
    ensures
        m.answered(id).valid(),
        m.pending.contains_key(id) ==> !m.answered(id).pending.contains_value(m.pending[id]),
{
    let after = m.answered(id);
    assert(after.pending.dom() =~= after.queue.pending.dom());
    assert(forall|a: u32| #[trigger]
        after.pending.contains_key(a) ==> m.pending.contains_key(a) && after.pending[a]
            == m.pending[a] && a != id);
}

pub proof fn lemma_capacity(m: StoreModel)
    requires
        m.valid(),
    ensures
        m.capacity() <= u64::MAX,
{
    let n = m.block_count as int;
    let p = m.sectors_per_block() as int;
    assert(n * p <= 0xffff_ffff * 0x1_0000_0000) by (nonlinear_arith)
        requires
            0 <= n <= 0xffff_ffff,
            0 <= p <= 0x1_0000_0000,
    ;
}

/// What a store reports as a block backend: a missing block is no error, but
/// one that is on its way.
pub open spec fn request_result(r: Result<(), StorageError>) -> Result<
    BlockRequestStatus,
    DeviceError,
> {
    match r {
        Ok(_) => Ok(BlockRequestStatus::Complete),
        Err(StorageError::MissingBlock(_)) => Ok(BlockRequestStatus::Pending),
        Err(_) => Err(DeviceError::Backend),
    }
}

pub open spec fn backend_result(r: Result<(), StorageError>) -> Result<(), DeviceError> {
    match r {
        Ok(_) => Ok(()),
        Err(_) => Err(DeviceError::Backend),
    }
}

impl BlockBackend for HttpBlockStore {
    type Model = StoreModel;

    open spec fn model(&self) -> StoreModel {
        self@
    }

    open spec fn valid(m: StoreModel) -> bool {
        m.valid()
    }

    open spec fn capacity(m: StoreModel) -> u64 {
        m.capacity() as u64
    }

    open spec fn reads(m: StoreModel, sector: u64, data: Seq<u8>) -> (
        Result<(), DeviceError>,
        Seq<u8>,
        StoreModel,
    ) {
        let (r, data, after) = m.reads(sector, data);
        (backend_result(r), data, after)
    }

    open spec fn writes(m: StoreModel, sector: u64, data: Seq<u8>) -> (
        Result<(), DeviceError>,
        StoreModel,
    ) {
        let (r, after) = m.writes(sector, data);
        (backend_result(r), after)
    }

    open spec fn read_requests(m: StoreModel, sector: u64, data: Seq<u8>) -> (
        Result<BlockRequestStatus, DeviceError>,
        Seq<u8>,
        StoreModel,
    ) {
        let (r, data, after) = m.reads(sector, data);
        (request_result(r), data, after)
    }

    open spec fn write_requests(m: StoreModel, sector: u64, data: Seq<u8>) -> (
        Result<BlockRequestStatus, DeviceError>,
        StoreModel,
    ) {
        let (r, after) = m.writes(sector, data);
        (request_result(r), after)
    }

    fn capacity_sectors(&self) -> (r: u64) {
        self.capacity_sectors()
    }

    fn read(&mut self, sector: u64, data: &mut [u8]) -> (r: Result<(), DeviceError>) {
        match self.read_sectors(sector, data) {
            Ok(()) => Ok(()),
            Err(_) => Err(DeviceError::Backend),
        }
    }

    fn write(&mut self, sector: u64, data: &[u8]) -> (r: Result<(), DeviceError>) {
        match self.write_sectors(sector, data) {
            Ok(()) => Ok(()),
            Err(_) => Err(DeviceError::Backend),
        }
    }

    fn read_request(&mut self, sector: u64, data: &mut [u8]) -> (r: Result<
        BlockRequestStatus,
        DeviceError,
    >) {
        match self.read_sectors(sector, data) {
            Ok(()) => Ok(BlockRequestStatus::Complete),
            Err(StorageError::MissingBlock(_)) => Ok(BlockRequestStatus::Pending),
            Err(_) => Err(DeviceError::Backend),
        }
    }

    fn write_request(&mut self, sector: u64, data: &[u8]) -> (r: Result<
        BlockRequestStatus,
        DeviceError,
    >) {
        match self.write_sectors(sector, data) {
            Ok(()) => Ok(BlockRequestStatus::Complete),
            Err(StorageError::MissingBlock(_)) => Ok(BlockRequestStatus::Pending),
            Err(_) => Err(DeviceError::Backend),
        }
    }
}

/// A downloaded file, which may be encrypted.
pub struct HttpFile {
    pub url: String,
    pub key: Option<[u8; 16]>,
}

impl HttpFile {
    #[must_use]
    pub fn new(url: String, key: Option<[u8; 16]>) -> (r: Self)
        ensures
            r.url == url,
            r.key == key,
    {
        HttpFile { url, key }
    }

    /// Validates and optionally decrypts a downloaded file.
    ///
    /// # Errors
    ///
    /// Returns an error when decryption fails.
    pub fn decode<'a>(&self, data: &'a mut [u8]) -> (r: Result<&'a [u8], StorageError>)
        ensures
            match self.key {
                None => final(data)@ == old(data)@ && (r matches Ok(plain) && plain@
                    == old(data)@),
                Some(key) => {
                    let blocks = crypto::cbc_blocks(
                        key@,
                        old(data)@.subrange(4, crypto::HEADER_LEN as int),
                        crypto::ciphertext_of(old(data)@),
                    );
                    let (result, after) = crypto::decrypted(old(data)@, blocks);
                    &&& final(data)@ == after
                    &&& match r {
                        Ok(plain) => result == Ok::<_, CryptoError>(plain@),
                        Err(error) => error matches StorageError::Crypto(e) && result == Err::<
                            Seq<u8>,
                            _,
                        >(e),
                    }
                },
            },
    {
        match &self.key {
            Some(key) => match crypto::decrypt_legacy_file(key, data) {
                Ok(plain) => Ok(plain),
                Err(error) => Err(StorageError::from(error)),
            },
            None => Ok(data),
        }
    }
}

impl StoreModel {
    /// What a sector holds, if that is known without a request.
    pub open spec fn content(self, sector: u64) -> Option<Seq<u8>> {
        let cluster = sector / 8;
        let block = (sector as nat / self.sectors_per_block()) as u32;
        if self.overlays.contains_key(cluster) {
            let start = (sector % 8) * 512;
            Some(self.overlays[cluster].subrange(start, start + 512))
        } else if self.cache.contains_key(block) {
            let start = (sector as nat % self.sectors_per_block()) * 512;
            Some(self.cache[block].1.subrange(start as int, (start + 512) as int))
        } else {
            None
        }
    }
}

/// The `i`th sector of a buffer.
pub open spec fn sector_of(data: Seq<u8>, i: nat) -> Seq<u8> {
    data.subrange((i * 512) as int, (i * 512 + 512) as int)
}

proof fn lemma_reads_sector(m: StoreModel, sector: u64, other: u64)
    requires
        m.valid(),
    ensures
        m.reads_sector(sector).1.content(other) == m.content(other),
        m.reads_sector(sector).1.block_size == m.block_size,
        m.reads_sector(sector).1.block_count == m.block_count,
        m.reads_sector(sector).1.overlays == m.overlays,
        m.reads_sector(sector).1.cache.dom() == m.cache.dom(),
        m.reads_sector(sector).1.cache_limit == m.cache_limit,
        m.content(sector) is Some ==> m.reads_sector(sector).1.queue == m.queue
            && m.reads_sector(sector).1.pending == m.pending,
        m.reads_sector(sector).1.valid(),
        m.reads_sector(sector).0 matches Ok(data) ==> m.content(sector) == Some(data)
            && data.len() == 512,
        m.content(sector) matches Some(data) ==> m.reads_sector(sector).0 == Ok::<_, StorageError>(
            data,
        ),
{
    let after = m.reads_sector(sector).1;
    let p = m.sectors_per_block() as int;
    let k = sector as int % p;
    assert(k * 512 + 512 <= p * 512) by (nonlinear_arith)
        requires
            0 <= k < p,
    ;
    assert(after.overlays =~= m.overlays);
    assert(forall|block: u32|
        m.cache.contains_key(block) == #[trigger] after.cache.contains_key(block) && (
        m.cache.contains_key(block) ==> after.cache[block].1 == m.cache[block].1));
    assert(after.cache.dom() =~= m.cache.dom());
}

proof fn lemma_reads_from(m: StoreModel, sector: u64, data: Seq<u8>, i: nat, other: u64)
    requires
        m.valid(),
        i * 512 <= data.len(),
    ensures
        ({
            let (r, _, after) = m.reads_from(sector, data, i);
            &&& after.content(other) == m.content(other)
            &&& after.block_size == m.block_size && after.block_count == m.block_count
            &&& after.overlays == m.overlays
            &&& after.cache.dom() == m.cache.dom() && after.cache_limit == m.cache_limit
            &&& after.valid()
        }),
    decreases data.len() - i * 512,
{
    if (i + 1) * 512 <= data.len() {
        lemma_reads_sector(m, (sector + i) as u64, other);
        if let (Ok(bytes), after) = m.reads_sector((sector + i) as u64) {
            lemma_reads_from(
                after,
                sector,
                bytes::spliced(data, (i * 512) as int, bytes),
                i + 1,
                other,
            );
        }
    }
}

/// A successful read gives what its sectors hold.
pub proof fn lemma_read_data(m: StoreModel, sector: u64, data: Seq<u8>, i: nat, j: nat)
    requires
        m.valid(),
        i * 512 <= data.len(),
        (j + 1) * 512 <= data.len(),
        sector + j <= u64::MAX,
    ensures
        ({
            let (r, filled, _) = m.reads_from(sector, data, i);
            &&& filled.len() == data.len()
            &&& j < i ==> sector_of(filled, j) == sector_of(data, j)
            &&& r is Ok && i <= j ==> m.content((sector + j) as u64) == Some(sector_of(filled, j))
        }),
    decreases data.len() - i * 512,
{
    if (i + 1) * 512 <= data.len() {
        lemma_reads_sector(m, (sector + i) as u64, (sector + j) as u64);
        if let (Ok(bytes), after) = m.reads_sector((sector + i) as u64) {
            let next = bytes::spliced(data, (i * 512) as int, bytes);
            lemma_read_data(after, sector, next, i + 1, j);
            if j < i {
                assert(sector_of(next, j) =~= sector_of(data, j));
            } else if j == i {
                assert(sector_of(next, j) =~= bytes);
            }
        }
    }
}

/// A read of known sectors succeeds and asks for nothing.
pub proof fn lemma_known_read(m: StoreModel, sector: u64, data: Seq<u8>, i: nat)
    requires
        m.valid(),
        i * 512 <= data.len(),
        sector + data.len() / 512 <= u64::MAX,
        forall|j: nat|
            i <= j && (j + 1) * 512 <= data.len() ==> (#[trigger] m.content(
                (sector + j) as u64,
            )) is Some,
    ensures
        m.reads_from(sector, data, i).0 is Ok,
        m.reads_from(sector, data, i).2.queue == m.queue,
    decreases data.len() - i * 512,
{
    if (i + 1) * 512 <= data.len() {
        lemma_reads_sector(m, (sector + i) as u64, 0);
        assert(m.content((sector + i) as u64) is Some);
        if let (Ok(bytes), after) = m.reads_sector((sector + i) as u64) {
            assert forall|j: nat| i + 1 <= j && (j + 1) * 512 <= data.len() implies (
            #[trigger] after.content((sector + j) as u64)) is Some by {
                lemma_reads_sector(m, (sector + i) as u64, (sector + j) as u64);
                assert(m.content((sector + j) as u64) is Some);
            }
            lemma_known_read(
                after,
                sector,
                bytes::spliced(data, (i * 512) as int, bytes),
                i + 1,
            );
        }
    }
}

proof fn lemma_covered(m: StoreModel, cluster: u64, other: u64)
    requires
        m.valid(),
        cluster <= u64::MAX / 8,
    ensures
        ({
            let (r, after) = m.covered(cluster);
            &&& after.valid()
            &&& after.block_size == m.block_size && after.block_count == m.block_count
            &&& after.cache.dom() == m.cache.dom() && after.cache_limit == m.cache_limit
            &&& other < m.capacity() && m.content(other) is Some ==> after.content(other)
                == m.content(other)
            &&& m.overlays.contains_key(other / 8) ==> after.overlays.contains_key(other / 8)
                && after.content(other) == m.content(other)
            &&& r is Ok ==> after.overlays.contains_key(cluster)
        }),
{
    if !m.overlays.contains_key(cluster) {
        let start = (cluster * 8) as u64;
        let count = m.cluster_sectors(cluster);
        let zeros = zero_bytes(count * 512);
        lemma_reads_from(m, start, zeros, 0, other);
        if m.in_range(start, count * 512) && other / 8 == cluster && other < m.capacity() {
            let k = (other % 8) as nat;
            assert(k < count);
            lemma_read_data(m, start, zeros, 0, k);
            let (r, data, after) = m.reads(start, zeros);
            if r is Ok {
                assert(start + k == other);
                let overlay = m.covered(cluster).1.overlays[cluster];
                assert(sector_of(data, k) =~= overlay.subrange(
                    (other % 8) * 512,
                    (other % 8) * 512 + 512,
                ));
            }
        }
        if m.in_range(start, count * 512) {
            lemma_read_data(m, start, zeros, 0, 0);
        }
    }
}

proof fn lemma_writes_sector(m: StoreModel, sector: u64, data: Seq<u8>, other: u64)
    requires
        m.valid(),
        data.len() == 512,
    ensures
        ({
            let (r, after) = m.writes_sector(sector, data);
            &&& after.valid()
            &&& after.block_size == m.block_size && after.block_count == m.block_count
            &&& after.cache.dom() == m.cache.dom() && after.cache_limit == m.cache_limit
            &&& r is Ok ==> after.content(sector) == Some(data) && after.overlays.contains_key(
                sector / 8,
            )
            &&& other != sector && other < m.capacity() && m.content(other) is Some
                ==> after.content(other) == m.content(other)
            &&& m.overlays.contains_key(other / 8) ==> after.overlays.contains_key(other / 8) && (
            other != sector ==> after.content(other) == m.content(other))
        }),
{
    let cluster = sector / 8;
    lemma_covered(m, cluster, other);
    let (r, covered) = m.covered(cluster);
    if r is Ok {
        let before = covered.overlays[cluster];
        let offset = (sector % 8) * 512;
        let spliced = bytes::spliced(before, offset, data);
        assert(spliced.subrange(offset, offset + 512) =~= data);
        if other / 8 == cluster && other != sector {
            let o = (other % 8) * 512;
            assert(spliced.subrange(o, o + 512) =~= before.subrange(o, o + 512));
        }
    }
}

pub proof fn lemma_writes_from(m: StoreModel, sector: u64, data: Seq<u8>, i: nat, other: u64)
    requires
        m.valid(),
        i * 512 <= data.len(),
        sector + data.len() / 512 <= u64::MAX,
    ensures
        ({
            let (r, after) = m.writes_from(sector, data, i);
            let inside = sector + i <= other < sector + data.len() / 512;
            &&& after.valid()
            &&& after.block_size == m.block_size && after.block_count == m.block_count
            &&& after.cache.dom() == m.cache.dom() && after.cache_limit == m.cache_limit
            &&& !inside && other < m.capacity() && m.content(other) is Some ==> after.content(other)
                == m.content(other)
            &&& m.overlays.contains_key(other / 8) ==> after.overlays.contains_key(other / 8) && (
            !inside ==> after.content(other) == m.content(other))
            &&& r is Ok && inside ==> after.content(other) == Some(
                sector_of(data, (other - sector) as nat),
            ) && after.overlays.contains_key(other / 8)
        }),
    decreases data.len() - i * 512,
{
    if (i + 1) * 512 <= data.len() {
        let chunk = data.subrange((i * 512) as int, (i * 512 + 512) as int);
        let s = (sector + i) as u64;
        lemma_writes_sector(m, s, chunk, other);
        let (r, after) = m.writes_sector(s, chunk);
        if r is Ok {
            lemma_writes_from(after, sector, data, i + 1, other);
        }
        assert(chunk == sector_of(data, i));
    }
}

/// What a successful write put into sectors is what they hold afterwards, and
/// every other sector of the image keeps what it held.
pub proof fn law_write_changes_its_sectors(m: StoreModel, sector: u64, data: Seq<u8>, other: u64)
    requires
        m.valid(),
        m.writes(sector, data).0 is Ok,
        other < m.capacity(),
    ensures
        ({
            let after = m.writes(sector, data).1;
            &&& sector <= other < sector + data.len() / 512 ==> after.content(other) == Some(
                sector_of(data, (other - sector) as nat),
            )
            &&& !(sector <= other < sector + data.len() / 512) && m.content(other) is Some
                ==> after.content(other) == m.content(other)
        }),
{
    lemma_capacity(m);
    lemma_writes_from(m, sector, data, 0, other);
}

/// A read of the sectors of a successful write succeeds without a request and
/// gives the bytes that were written.
pub proof fn law_read_after_write(m: StoreModel, sector: u64, data: Seq<u8>, buffer: Seq<u8>)
    requires
        m.valid(),
        m.writes(sector, data).0 is Ok,
        buffer.len() == data.len(),
    ensures
        ({
            let after = m.writes(sector, data).1;
            &&& after.reads(sector, buffer).0 is Ok
            &&& after.reads(sector, buffer).1 == data
            &&& after.reads(sector, buffer).2.queue == after.queue
        }),
{
    lemma_capacity(m);
    let after = m.writes(sector, data).1;
    lemma_writes_from(m, sector, data, 0, 0);
    assert forall|j: nat| 0 <= j && (j + 1) * 512 <= buffer.len() implies (#[trigger] after.content(
        (sector + j) as u64,
    )) is Some by {
        lemma_writes_from(m, sector, data, 0, (sector + j) as u64);
    }
    lemma_known_read(after, sector, buffer, 0);
    let filled = after.reads(sector, buffer).1;
    assert forall|k: int| 0 <= k < data.len() implies filled[k] == data[k] by {
        let j = (k / 512) as nat;
        lemma_read_data(after, sector, buffer, 0, j);
        lemma_writes_from(m, sector, data, 0, (sector + j) as u64);
        assert(sector_of(filled, j)[k - j * 512] == filled[k]);
        assert(sector_of(data, j)[k - j * 512] == data[k]);
    }
    lemma_read_data(after, sector, buffer, 0, 0);
    assert(filled =~= data);
}

/// A sector that a cached block covers reads back as part of that block.
pub proof fn law_read_from_cache(m: StoreModel, sector: u64)
    requires
        m.valid(),
        !m.overlays.contains_key(sector / 8),
        m.cache.contains_key((sector as nat / m.sectors_per_block()) as u32),
    ensures
        m.reads_sector(sector).0 == Ok::<_, StorageError>(m.content(sector)->0),
{
    lemma_reads_sector(m, sector, sector);
}

proof fn lemma_oldest_exists(m: StoreModel, newest: u32)
    requires
        m.cache.dom().finite(),
        m.cache.dom().len() > 0,
    ensures
        exists|block: u32| m.is_oldest(block, newest),
    decreases m.cache.dom().len(),
{
    let a = m.cache.dom().choose();
    assert(m.cache.dom().contains(a));
    let rest = StoreModel { cache: m.cache.remove(a), ..m };
    assert(rest.cache.dom() =~= m.cache.dom().remove(a));
    if rest.cache.dom().len() == 0 {
        assert forall|other: u32| #[trigger] m.cache.contains_key(other) implies m.older(
            a,
            other,
            newest,
        ) by {
            if other != a {
                assert(rest.cache.dom().contains(other));
            }
        }
        assert(m.is_oldest(a, newest));
    } else {
        lemma_oldest_exists(rest, newest);
        let b = choose|block: u32| rest.is_oldest(block, newest);
        let c = if m.older(a, b, newest) {
            a
        } else {
            b
        };
        assert forall|other: u32| #[trigger] m.cache.contains_key(other) implies m.older(
            c,
            other,
            newest,
        ) by {
            if other != a {
                assert(rest.cache.contains_key(other));
                assert(rest.older(b, other, newest));
            }
        }
        assert(m.is_oldest(c, newest));
    }
}

proof fn lemma_trimmed(m: StoreModel, newest: u32)
    requires
        m.cache.dom().finite(),
    ensures
        m.trimmed(newest).cache_fits(),
        m.trimmed(newest).block_size == m.block_size,
        m.trimmed(newest).cache_limit == m.cache_limit,
    decreases m.cache.dom().len(),
{
    if m.cache.dom().len() == 0 {
        assert(0 * m.block_size == 0);
    } else if m.cache.dom().len() * m.block_size > m.cache_limit {
        lemma_oldest_exists(m, newest);
        let block = choose|block: u32| m.is_oldest(block, newest);
        let rest = StoreModel { cache: m.cache.remove(block), ..m };
        assert(rest.cache.dom() =~= m.cache.dom().remove(block));
        lemma_trimmed(rest, newest);
    }
}

impl StoreModel {
    /// The block that holds a sector.
    pub open spec fn block_of(self, sector: u64) -> u32 {
        (sector as nat / self.sectors_per_block()) as u32
    }

    /// Whether the `j`th sector from `sector` on is the first that is not here.
    pub open spec fn first_missing(self, sector: u64, j: nat) -> bool {
        &&& self.content((sector + j) as u64) is None
        &&& forall|k: nat| k < j ==> (#[trigger] self.content((sector + k) as u64)) is Some
    }

    /// Whether exactly one request waits for a block.
    pub open spec fn one_request(self, block: u32) -> bool {
        exists|id: u32| #[trigger]
            self.pending.contains_key(id) && self.pending[id] == block && forall|other: u32|
                #[trigger] self.pending.contains_key(other) && self.pending[other] == block
                    ==> other == id
    }

    /// Whether no cached block was used after the present. That holds until the
    /// clock has run through all its values.
    pub open spec fn ages_in_order(self) -> bool {
        forall|block: u32| #[trigger]
            self.cache.contains_key(block) ==> self.cache[block].0 <= self.clock
    }
}

proof fn lemma_block_in_image(m: StoreModel, sector: u64)
    requires
        m.valid(),
        sector < m.capacity(),
    ensures
        m.block_of(sector) < m.block_count,
        m.block_of(sector) == sector as nat / m.sectors_per_block(),
{
    let p = m.sectors_per_block() as int;
    let n = m.block_count as int;
    let q = sector as int / p;
    vstd::arithmetic::div_mod::lemma_fundamental_div_mod(sector as int, p);
    assert(q < n) by (nonlinear_arith)
        requires
            p > 0,
            p * q <= sector,
            sector < n * p,
    ;
    vstd::arithmetic::div_mod::lemma_div_pos_is_pos(sector as int, p);
}

/// A read that stops has come to the first sector that is not here and has its
/// block on the way.
proof fn lemma_read_stops(m: StoreModel, sector: u64, data: Seq<u8>, i: nat)
    requires
        m.valid(),
        sector + data.len() / 512 <= m.capacity() <= u64::MAX,
        forall|k: nat| k < i ==> (#[trigger] m.content((sector + k) as u64)) is Some,
    ensures
        ({
            let (r, _, after) = m.reads_from(sector, data, i);
            &&& r matches Err(error) ==> exists|j: nat|
                j < data.len() / 512 && #[trigger] m.first_missing(sector, j) && error
                    == StorageError::MissingBlock(m.block_of((sector + j) as u64))
                    && after.pending.contains_value(m.block_of((sector + j) as u64))
            &&& after.capacity() == m.capacity()
        }),
    decreases data.len() - i * 512,
{
    if (i + 1) * 512 <= data.len() {
        let at = (sector + i) as u64;
        lemma_reads_sector(m, at, at);
        lemma_block_in_image(m, at);
        let (r, after) = m.reads_sector(at);
        if r is Ok {
            assert forall|k: nat| k < i + 1 implies (#[trigger] after.content(
                (sector + k) as u64,
            )) is Some by {
                lemma_reads_sector(m, at, (sector + k) as u64);
                assert(k < i ==> m.content((sector + k) as u64) is Some);
            }
            let next = bytes::spliced(data, (i * 512) as int, r->Ok_0);
            lemma_read_stops(after, sector, next, i + 1);
            if after.reads_from(sector, next, i + 1).0 is Err {
                let j = choose|j: nat|
                    j < next.len() / 512 && #[trigger] after.first_missing(sector, j)
                        && after.reads_from(sector, next, i + 1).0->Err_0
                        == StorageError::MissingBlock(after.block_of((sector + j) as u64))
                        && after.reads_from(sector, next, i + 1).2.pending.contains_value(
                        after.block_of((sector + j) as u64),
                    );
                lemma_reads_sector(m, at, (sector + j) as u64);
                assert forall|k: nat| k < j implies (#[trigger] m.content(
                    (sector + k) as u64,
                )) is Some by {
                    lemma_reads_sector(m, at, (sector + k) as u64);
                    assert(after.content((sector + k) as u64) is Some);
                }
                assert(m.first_missing(sector, j));
            }
        } else {
            assert(m.first_missing(sector, i));
            let block = m.block_of(at);
            assert(!m.cache.contains_key(block));
            if !m.pending.contains_value(block) {
                assert(after.pending.contains_key(after.queue.next_id));
                assert(after.pending[after.queue.next_id] == block);
            }
        }
    }
}

/// A read up to a sector whose block is on the way changes no request.
proof fn lemma_read_again(m: StoreModel, sector: u64, data: Seq<u8>, i: nat, j: nat)
    requires
        m.valid(),
        sector + data.len() / 512 <= m.capacity() <= u64::MAX,
        i <= j < data.len() / 512,
        m.first_missing(sector, j),
        m.pending.contains_value(m.block_of((sector + j) as u64)),
    ensures
        ({
            let (r, _, after) = m.reads_from(sector, data, i);
            &&& r == Err::<(), StorageError>(
                StorageError::MissingBlock(m.block_of((sector + j) as u64)),
            )
            &&& after.queue == m.queue && after.pending == m.pending
        }),
    decreases data.len() - i * 512,
{
    let at = (sector + i) as u64;
    lemma_reads_sector(m, at, at);
    lemma_block_in_image(m, at);
    let (r, after) = m.reads_sector(at);
    if i < j {
        assert(m.content(at) is Some);
        assert forall|k: nat| k <= j implies (#[trigger] after.content((sector + k) as u64))
            == m.content((sector + k) as u64) by {
            lemma_reads_sector(m, at, (sector + k) as u64);
        }
        assert(after.first_missing(sector, j)) by {
            assert(after.content((sector + j) as u64) is None);
            assert forall|k: nat| k < j implies (#[trigger] after.content(
                (sector + k) as u64,
            )) is Some by {
                assert(m.content((sector + k) as u64) is Some);
            }
        }
        lemma_read_again(
            after,
            sector,
            bytes::spliced(data, (i * 512) as int, r->Ok_0),
            i + 1,
            j,
        );
    }
}

/// A read is refused for its range exactly if that is empty, not whole or past
/// the end. Otherwise it stops only at the first sector that is in no written
/// cluster and no cached block: it names that block, for which exactly one
/// request then waits, and the same read asks for nothing more.
pub proof fn law_read_names_missing_block(m: StoreModel, sector: u64, data: Seq<u8>)
    requires
        m.valid(),
    ensures
        ({
            let (r, _, after) = m.reads(sector, data);
            let again = after.reads(sector, data);
            &&& r == Err::<(), StorageError>(StorageError::OutOfRange) <==> !m.in_range(
                sector,
                data.len(),
            )
            &&& r is Err && m.in_range(sector, data.len()) ==> exists|j: nat|
                j < data.len() / 512 && #[trigger] m.first_missing(sector, j) && r == Err::<
                    (),
                    StorageError,
                >(StorageError::MissingBlock(m.block_of((sector + j) as u64)))
                    && after.one_request(m.block_of((sector + j) as u64))
            &&& r is Err ==> again.0 == r && again.2.queue == after.queue && again.2.pending
                == after.pending
        }),
{
    lemma_capacity(m);
    if m.in_range(sector, data.len()) {
        lemma_read_stops(m, sector, data, 0);
        let (r, _, after) = m.reads(sector, data);
        lemma_reads_from(m, sector, data, 0, sector);
        if let Err(error) = r {
            let j = choose|j: nat|
                j < data.len() / 512 && #[trigger] m.first_missing(sector, j) && error
                    == StorageError::MissingBlock(m.block_of((sector + j) as u64))
                    && after.pending.contains_value(m.block_of((sector + j) as u64));
            let block = m.block_of((sector + j) as u64);
            let id = choose|id: u32| after.pending.contains_key(id) && after.pending[id] == block;
            assert(after.pending.contains_key(id) && after.pending[id] == block);
            assert(after.one_request(block));
            assert forall|k: nat| k <= j implies (#[trigger] after.content((sector + k) as u64))
                == m.content((sector + k) as u64) by {
                lemma_reads_from(m, sector, data, 0, (sector + k) as u64);
            }
            assert(after.first_missing(sector, j)) by {
                assert(after.content((sector + j) as u64) is None);
                assert forall|k: nat| k < j implies (#[trigger] after.content(
                    (sector + k) as u64,
                )) is Some by {
                    assert(m.content((sector + k) as u64) is Some);
                }
            }
            lemma_read_again(after, sector, data, 0, j);
        }
    }
}

/// The newest block survives the trimming of the cache.
proof fn lemma_newest_stays(m: StoreModel, newest: u32)
    requires
        m.cache.dom().finite(),
        0 < m.block_size <= m.cache_limit,
        m.cache.contains_key(newest),
    ensures
        m.trimmed(newest).cache.contains_key(newest),
        m.trimmed(newest).cache[newest] == m.cache[newest],
        m.trimmed(newest).overlays == m.overlays,
        m.trimmed(newest).block_size == m.block_size,
    decreases m.cache.dom().len(),
{
    if m.cache.dom().len() * m.block_size > m.cache_limit {
        assert(m.cache.dom().contains(newest));
        lemma_oldest_exists(m, newest);
        let oldest = choose|b: u32| m.is_oldest(b, newest);
        assert(m.is_oldest(oldest, newest));
        if oldest == newest {
            assert(m.cache.dom() =~= set![newest]) by {
                assert forall|b: u32| #[trigger] m.cache.dom().contains(b) implies b == newest by {
                    assert(m.cache.contains_key(b));
                    assert(m.older(newest, b, newest));
                }
            }
            assert(m.cache.dom().len() == 1);
            assert(1 * m.block_size == m.block_size);
        }
        let rest = StoreModel { cache: m.cache.remove(oldest), ..m };
        assert(rest.cache.dom() =~= m.cache.dom().remove(oldest));
        lemma_newest_stays(rest, newest);
    }
}

impl StoreModel {
    /// What a sector holds once its block has come: what was written to it, or
    /// else its part of the block.
    pub open spec fn sector_with(self, block: Seq<u8>, sector: u64) -> Seq<u8> {
        if self.overlays.contains_key(sector / 8) {
            self.content(sector)->0
        } else {
            let start = (sector as nat % self.sectors_per_block()) * 512;
            block.subrange(start as int, (start + 512) as int)
        }
    }
}

/// A block that an answer brings is readable right after it: a read inside the
/// block gives its bytes, overlaid by what was written, without a request.
pub proof fn law_answered_block_is_readable(
    m: StoreModel,
    id: u32,
    data: Seq<u8>,
    sector: u64,
    buffer: Seq<u8>,
)
    requires
        m.valid(),
        m.completed(id, data).0 is Ok,
        m.in_range(sector, buffer.len()),
        forall|j: nat|
            j < buffer.len() / 512 ==> #[trigger] m.block_of((sector + j) as u64) == m.pending[id],
    ensures
        ({
            let now = m.completed(id, data).1;
            let (r, filled, after) = now.reads(sector, buffer);
            &&& r is Ok
            &&& filled.len() == buffer.len()
            &&& forall|j: nat|
                j < buffer.len() / 512 ==> #[trigger] sector_of(filled, j) == m.sector_with(
                    data,
                    (sector + j) as u64,
                )
            &&& after.queue == now.queue
        }),
{
    let clock = m.clock.wrapping_add(1);
    let block = m.pending[id];
    let full = StoreModel { clock, cache: m.cache.insert(block, (clock, data)), ..m.answered(id) };
    let now = m.completed(id, data).1;
    lemma_capacity(m);
    lemma_answer_keeps(m, id, data);
    lemma_newest_stays(full, block);
    assert forall|j: nat| j < buffer.len() / 512 implies (#[trigger] now.content(
        (sector + j) as u64,
    )) == Some(m.sector_with(data, (sector + j) as u64)) by {
        assert(m.block_of((sector + j) as u64) == block);
    }
    assert forall|j: nat| 0 <= j && (j + 1) * 512 <= buffer.len() implies (#[trigger] now.content(
        (sector + j) as u64,
    )) is Some by {
        assert(j < buffer.len() / 512);
    }
    lemma_known_read(now, sector, buffer, 0);
    let filled = now.reads(sector, buffer).1;
    lemma_read_data(now, sector, buffer, 0, 0);
    assert forall|j: nat| j < buffer.len() / 512 implies #[trigger] sector_of(filled, j)
        == m.sector_with(data, (sector + j) as u64) by {
        lemma_read_data(now, sector, buffer, 0, j);
        assert(now.content((sector + j) as u64) == Some(sector_of(filled, j)));
    }
}

/// An answer that nothing waits for is refused and changes nothing. One of the
/// wrong size is refused too: its block stays away, and the next read that needs
/// it sends a new request. Every other answer is taken.
pub proof fn law_refused_answer(m: StoreModel, id: u32, data: Seq<u8>, sector: u64)
    requires
        m.valid(),
    ensures
        ({
            let (r, after) = m.completed(id, data);
            let needed = sector < m.capacity() && m.block_of(sector) == m.pending[id]
                && !m.overlays.contains_key(sector / 8);
            let next = after.reads_sector(sector).1;
            &&& !m.pending.contains_key(id) ==> r == Err::<(), StorageError>(
                StorageError::UnknownRequest,
            ) && after == m
            &&& m.pending.contains_key(id) && data.len() != m.block_size ==> {
                &&& r == Err::<(), StorageError>(StorageError::InvalidResponse)
                &&& !after.cache.contains_key(m.pending[id])
                &&& needed ==> next.queue.outgoing.len() == after.queue.outgoing.len() + 1
                    && next.queue.outgoing.last().url == m.block_url(m.pending[id])
            }
            &&& m.pending.contains_key(id) && data.len() == m.block_size ==> r is Ok
        }),
{
    lemma_answered(m, id);
    if sector < m.capacity() {
        lemma_block_in_image(m, sector);
    }
    assert(m.pending.contains_key(id) <==> m.queue.pending.contains_key(id));
}

/// Something that happens to a store.
pub enum StoreStep {
    Read { sector: u64, buffer: Seq<u8> },
    Write { sector: u64, data: Seq<u8> },
    Answer { id: u32, data: Seq<u8> },
    Send,
}

impl StoreModel {
    pub open spec fn stepped(self, step: StoreStep) -> StoreModel {
        match step {
            StoreStep::Read { sector, buffer } => self.reads(sector, buffer).2,
            StoreStep::Write { sector, data } => self.writes(sector, data).1,
            StoreStep::Answer { id, data } => self.completed(id, data).1,
            StoreStep::Send => StoreModel { queue: self.queue.sent(), ..self },
        }
    }

    /// The store after steps in their order.
    pub open spec fn after_steps(self, steps: Seq<StoreStep>) -> StoreModel
        decreases steps.len(),
    {
        if steps.len() == 0 {
            self
        } else {
            self.after_steps(steps.drop_last()).stepped(steps.last())
        }
    }
}

/// Whether a step writes to none of `count` sectors from `sector` on.
pub open spec fn leaves_sectors(step: StoreStep, sector: u64, count: nat) -> bool {
    match step {
        StoreStep::Write { sector: other, data } => other + data.len() / 512 <= sector || sector
            + count <= other,
        _ => true,
    }
}

proof fn lemma_trimmed_keeps(m: StoreModel, newest: u32)
    requires
        m.sound(),
    ensures
        m.trimmed(newest).valid(),
        m.trimmed(newest).overlays == m.overlays,
        m.trimmed(newest).block_size == m.block_size,
        m.trimmed(newest).block_count == m.block_count,
        m.trimmed(newest).cache_limit == m.cache_limit,
    decreases m.cache.dom().len(),
{
    lemma_trimmed(m, newest);
    if !(m.cache.dom().len() * m.block_size <= m.cache_limit || m.cache.dom().len() == 0) {
        let block = choose|block: u32| m.is_oldest(block, newest);
        if m.cache.contains_key(block) {
            let rest = StoreModel { cache: m.cache.remove(block), ..m };
            assert(rest.cache.dom() =~= m.cache.dom().remove(block));
            lemma_trimmed_keeps(rest, newest);
        }
    }
}

proof fn lemma_answer_keeps(m: StoreModel, id: u32, data: Seq<u8>)
    requires
        m.valid(),
    ensures
        m.completed(id, data).1.valid(),
        m.completed(id, data).1.overlays == m.overlays,
        m.completed(id, data).1.block_size == m.block_size,
        m.completed(id, data).1.block_count == m.block_count,
        m.completed(id, data).1.cache_limit == m.cache_limit,
{
    lemma_answered(m, id);
    if m.completed(id, data).0 is Ok {
        let clock = m.clock.wrapping_add(1);
        lemma_trimmed_keeps(
            StoreModel {
                clock,
                cache: m.cache.insert(m.pending[id], (clock, data)),
                ..m.answered(id)
            },
            m.pending[id],
        );
    }
}

/// A written sector keeps what it holds through a step that does not write it.
proof fn lemma_step_keeps(m: StoreModel, step: StoreStep, sector: u64)
    requires
        m.valid(),
        m.overlays.contains_key(sector / 8),
        leaves_sectors(step, sector, 1),
    ensures
        ({
            let after = m.stepped(step);
            &&& after.valid()
            &&& after.capacity() == m.capacity()
            &&& after.overlays.contains_key(sector / 8)
            &&& after.content(sector) == m.content(sector)
        }),
{
    lemma_capacity(m);
    match step {
        StoreStep::Read { sector: other, buffer } => {
            lemma_reads_from(m, other, buffer, 0, sector);
        },
        StoreStep::Write { sector: other, data } => {
            if m.in_range(other, data.len()) {
                lemma_writes_from(m, other, data, 0, sector);
            }
        },
        StoreStep::Answer { id, data } => {
            lemma_answer_keeps(m, id, data);
        },
        StoreStep::Send => {},
    }
}

proof fn lemma_steps_keep(m: StoreModel, steps: Seq<StoreStep>, sector: u64)
    requires
        m.valid(),
        m.overlays.contains_key(sector / 8),
        forall|i: int| 0 <= i < steps.len() ==> leaves_sectors(#[trigger] steps[i], sector, 1),
    ensures
        ({
            let after = m.after_steps(steps);
            &&& after.valid()
            &&& after.capacity() == m.capacity()
            &&& after.overlays.contains_key(sector / 8)
            &&& after.content(sector) == m.content(sector)
        }),
    decreases steps.len(),
{
    if steps.len() > 0 {
        lemma_steps_keep(m, steps.drop_last(), sector);
        assert(leaves_sectors(steps[steps.len() - 1], sector, 1));
        lemma_step_keeps(m.after_steps(steps.drop_last()), steps.last(), sector);
    }
}

/// The cached bytes never exceed the limit, whatever happens to a store.
pub proof fn law_cache_keeps_its_limit(m: StoreModel, steps: Seq<StoreStep>)
    requires
        m.valid(),
    ensures
        m.after_steps(steps).valid(),
        m.after_steps(steps).block_size == m.block_size,
        m.after_steps(steps).cache_limit == m.cache_limit,
        m.after_steps(steps).cache.dom().len() * m.block_size <= m.cache_limit,
    decreases steps.len(),
{
    if steps.len() > 0 {
        let before = m.after_steps(steps.drop_last());
        law_cache_keeps_its_limit(m, steps.drop_last());
        match steps.last() {
            StoreStep::Read { sector, buffer } => {
                lemma_reads_from(before, sector, buffer, 0, 0);
            },
            StoreStep::Write { sector, data } => {
                if before.in_range(sector, data.len()) {
                    lemma_capacity(before);
                    lemma_writes_from(before, sector, data, 0, 0);
                }
            },
            StoreStep::Answer { id, data } => {
                lemma_answer_keeps(before, id, data);
            },
            StoreStep::Send => {},
        }
    }
}

/// What was written stays: whatever is read, answered, evicted, sent or written
/// elsewhere meanwhile, a read of the written sectors gives the bytes of the
/// write without a request, and the disk keeps its size.
pub proof fn law_written_sectors_stay(
    m: StoreModel,
    sector: u64,
    data: Seq<u8>,
    steps: Seq<StoreStep>,
    buffer: Seq<u8>,
)
    requires
        m.valid(),
        m.writes(sector, data).0 is Ok,
        buffer.len() == data.len(),
        forall|i: int|
            0 <= i < steps.len() ==> leaves_sectors(#[trigger] steps[i], sector, data.len() / 512),
    ensures
        ({
            let now = m.writes(sector, data).1.after_steps(steps);
            let (r, filled, after) = now.reads(sector, buffer);
            &&& r is Ok
            &&& filled == data
            &&& after.queue == now.queue
            &&& now.capacity() == m.capacity()
        }),
{
    lemma_capacity(m);
    let written = m.writes(sector, data).1;
    let now = written.after_steps(steps);
    assert forall|j: nat| (j + 1) * 512 <= data.len() implies (#[trigger] now.content(
        (sector + j) as u64,
    )) == Some(sector_of(data, j)) && now.valid() && now.capacity() == m.capacity() by {
        let at = (sector + j) as u64;
        lemma_writes_from(m, sector, data, 0, at);
        assert forall|i: int| 0 <= i < steps.len() implies leaves_sectors(
            #[trigger] steps[i],
            at,
            1,
        ) by {
            assert(leaves_sectors(steps[i], sector, data.len() / 512));
        }
        lemma_steps_keep(written, steps, at);
    }
    assert(now.content((sector + 0nat) as u64) is Some);
    lemma_known_read(now, sector, buffer, 0);
    let filled = now.reads(sector, buffer).1;
    assert forall|k: int| 0 <= k < data.len() implies filled[k] == data[k] by {
        let j = (k / 512) as nat;
        lemma_read_data(now, sector, buffer, 0, j);
        assert(now.content((sector + j) as u64) == Some(sector_of(data, j)));
        assert(sector_of(filled, j)[k - j * 512] == filled[k]);
        assert(sector_of(data, j)[k - j * 512] == data[k]);
    }
    lemma_read_data(now, sector, buffer, 0, 0);
    assert(filled =~= data);
}

/// By how much a step moves the clock at most.
pub open spec fn ticks_of(step: StoreStep) -> nat {
    match step {
        StoreStep::Read { buffer, .. } => buffer.len() / 512,
        StoreStep::Write { data, .. } => 8 * (data.len() / 512),
        StoreStep::Answer { .. } => 1,
        StoreStep::Send => 0,
    }
}

/// Whether a store comes from another one whose ages are in order, with the
/// clock moved by a number of ticks at most.
spec fn aged(m: StoreModel, after: StoreModel, ticks: nat) -> bool {
    after.ages_in_order() && m.clock <= after.clock <= m.clock + ticks
}

proof fn lemma_read_ages(m: StoreModel, sector: u64, data: Seq<u8>, i: nat)
    requires
        m.ages_in_order(),
        i * 512 <= data.len(),
        m.clock + (data.len() / 512 - i) <= u64::MAX,
    ensures
        aged(m, m.reads_from(sector, data, i).2, (data.len() / 512 - i) as nat),
    decreases data.len() - i * 512,
{
    if (i + 1) * 512 <= data.len() {
        let (r, after) = m.reads_sector((sector + i) as u64);
        assert(aged(m, after, 1));
        if r is Ok {
            let bytes = r->Ok_0;
            let at = (i * 512) as int;
            assert(bytes::spliced(data, at, bytes).len() == data.len());
            lemma_read_ages(after, sector, bytes::spliced(data, at, bytes), i + 1);
        }
    }
}

proof fn lemma_write_ages(m: StoreModel, sector: u64, data: Seq<u8>, i: nat)
    requires
        m.ages_in_order(),
        i * 512 <= data.len(),
        m.clock + 8 * (data.len() / 512 - i) <= u64::MAX,
    ensures
        aged(m, m.writes_from(sector, data, i).1, (8 * (data.len() / 512 - i)) as nat),
    decreases data.len() - i * 512,
{
    if (i + 1) * 512 <= data.len() {
        let at = (sector + i) as u64;
        let chunk = data.subrange((i * 512) as int, (i * 512 + 512) as int);
        let count = m.cluster_sectors(at / 8);
        let zeros = zero_bytes(count * 512);
        lemma_read_ages(m, ((at / 8) * 8) as u64, zeros, 0);
        let (r, after) = m.writes_sector(at, chunk);
        assert(aged(m, after, 8));
        if r is Ok {
            lemma_write_ages(after, sector, data, i + 1);
        }
    }
}

proof fn lemma_trimmed_ages(m: StoreModel, newest: u32)
    requires
        m.ages_in_order(),
    ensures
        aged(m, m.trimmed(newest), 0),
    decreases m.cache.dom().len(),
{
    if !(m.cache.dom().len() * m.block_size <= m.cache_limit || !m.cache.dom().finite()
        || m.cache.dom().len() == 0) {
        let block = choose|block: u32| m.is_oldest(block, newest);
        if m.cache.contains_key(block) {
            let rest = StoreModel { cache: m.cache.remove(block), ..m };
            assert(rest.ages_in_order()) by {
                assert forall|b: u32| #[trigger] rest.cache.contains_key(b) implies rest.cache[b].0
                    <= rest.clock by {
                    assert(m.cache.contains_key(b));
                }
            }
            lemma_trimmed_ages(rest, newest);
        }
    }
}

/// Ages that are in order stay so through every step for which the clock has
/// room.
pub proof fn law_ages_stay_in_order(m: StoreModel, step: StoreStep)
    requires
        m.ages_in_order(),
        m.clock + ticks_of(step) <= u64::MAX,
    ensures
        m.stepped(step).ages_in_order(),
        m.clock <= m.stepped(step).clock <= m.clock + ticks_of(step),
{
    match step {
        StoreStep::Read { sector, buffer } => {
            lemma_read_ages(m, sector, buffer, 0);
        },
        StoreStep::Write { sector, data } => {
            lemma_write_ages(m, sector, data, 0);
        },
        StoreStep::Answer { id, data } => {
            if m.completed(id, data).0 is Ok {
                let clock = m.clock.wrapping_add(1);
                let full = StoreModel {
                    clock,
                    cache: m.cache.insert(m.pending[id], (clock, data)),
                    ..m.answered(id)
                };
                assert(full.ages_in_order()) by {
                    assert forall|b: u32| #[trigger]
                        full.cache.contains_key(b) implies full.cache[b].0 <= full.clock by {
                        if b != m.pending[id] {
                            assert(m.cache.contains_key(b));
                        }
                    }
                }
                lemma_trimmed_ages(full, m.pending[id]);
            }
        },
        StoreStep::Send => {},
    }
}

} // verus!
