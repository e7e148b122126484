//! The storage manager of one node.
//!
//! A `Cell` holds what the node remembers: the reference counts of its chunks
//! and the cache of its file records. Each operation is a decision. Where the
//! decision depends on the disk, the operation comes in steps: one says which
//! file is concerned, the caller looks or reads, and the next takes what was
//! found and says what to write or remove.
//!
//! Storing a chunk:
//! 1. `Cell::prepare_store` hashes the payload and says where its file lives;
//! 2. the caller makes sure the directory is there and looks for the file;
//! 3. `PendingStore::needs_write` says whether the payload is to be written;
//! 4. once the disk is in order, `Cell::store_chunk` counts the reference.
//!
//! A failure on disk ends the operation at the step where it happened: the
//! caller reports it and calls nothing more.

use crate::digest::{blake3_digest, blake3_hash, decode_hex, hash_from_bytes, hex_decode};
use crate::disk::{LoadOutcome, LoadView, ReadOutcome, ReadView};
use crate::error::StorageError;
use crate::file_info::FileInfoView;
use crate::layout::{chunk_location, chunk_path, get_metadata_path, metadata_path, shard_dir};
use crate::metadata::MetadataIndex;
use crate::proto::{ChunkData, ChunkRequest};
use crate::refcount::{count_of, decremented, incremented, table_valid, RefCounter};
use std::path::PathBuf;
use vstd::prelude::*;

pub use crate::chunk::{wire_signature, Chunk, ChunkView};
pub use crate::file_info::FileInfo;
pub use crate::priority::{wire_of_priority, Priority};

verus! {

/// `std::path::PathBuf`, which holds the storage root. The cell carries it and
/// never looks inside.
#[verifier::external_type_specification]
#[verifier::external_body]
pub struct ExPathBuf(std::path::PathBuf);

/// The storage manager of one node.
pub struct Cell {
    /// The storage root, as the caller named it.
    base_path: PathBuf,
    /// The cache of file records.
    file_index: MetadataIndex,
    /// The chunk size for new files.
    default_chunk_size: u32,
    /// The reference counts of the chunks.
    chunk_refs: RefCounter,
}

/// What a `Cell` holds.
pub struct CellView {
    pub base_path: PathBuf,
    pub default_chunk_size: u32,
    /// The reference count of every referenced chunk, by hash.
    pub refs: Map<Seq<u8>, nat>,
    /// The cached file records, by file id.
    pub cache: Map<Seq<char>, FileInfoView>,
}

impl CellView {
    /// With one more reference to `hash`.
    pub open spec fn referencing(self, hash: Seq<u8>) -> CellView {
        CellView { refs: incremented(self.refs, hash), ..self }
    }

    /// With one reference to `hash` less.
    pub open spec fn releasing(self, hash: Seq<u8>) -> CellView {
        CellView { refs: decremented(self.refs, hash), ..self }
    }

    /// With `info` cached under its file id, in place of any record that was
    /// there.
    pub open spec fn caching(self, info: FileInfoView) -> CellView {
        CellView { cache: self.cache.insert(info.file_id, info), ..self }
    }
}

impl View for Cell {
    type V = CellView;

    closed spec fn view(&self) -> CellView {
        CellView {
            base_path: self.base_path,
            default_chunk_size: self.default_chunk_size,
            refs: self.chunk_refs@,
            cache: self.file_index@,
        }
    }
}

/// A chunk that has been hashed and is on its way to disk.
pub struct PendingStore {
    chunk: Chunk,
    hash: [u8; 32],
    dir: String,
    path: String,
}

impl PendingStore {
    /// The record of the chunk.
    pub closed spec fn chunk(&self) -> Chunk {
        self.chunk
    }

    /// The content hash of the chunk.
    pub closed spec fn hash(&self) -> Seq<u8> {
        self.hash@
    }

    /// The path of the chunk's file.
    pub closed spec fn path(&self) -> Seq<char> {
        self.path@
    }

    /// The directory of the chunk's file.
    pub closed spec fn dir(&self) -> Seq<char> {
        self.dir@
    }

    /// Whether record, hash and paths belong together.
    pub closed spec fn wf(&self) -> bool {
        &&& self.chunk.hash_bytes@ == self.hash@
        &&& self.dir@ == shard_dir(self.hash@)
        &&& self.path@ == chunk_path(self.hash@)
    }

    /// The content hash of the chunk.
    pub fn hash_bytes(&self) -> (hash: &[u8; 32])
        ensures
            hash@ == self.hash(),
    {
        &self.hash
    }

    /// The directory of the chunk's file, relative to the storage root: to
    /// be created if it is not there.
    pub fn dir_path(&self) -> (dir: &String)
        ensures
            dir@ == self.dir(),
    {
        &self.dir
    }

    /// The path of the chunk's file, relative to the storage root: where to
    /// look for the payload and, if need be, to write it.
    pub fn file_path(&self) -> (path: &String)
        ensures
            path@ == self.path(),
    {
        &self.path
    }

    /// Whether the payload is to be written, given whether a file is already
    /// at the path. A file that is there holds the same content and is left
    /// alone.
    pub fn needs_write(&self, present: bool) -> (write: bool)
        ensures
            write == !present,
    {
        !present
    }
}

/// What `get_chunk` answers for a hash and what the disk said.
pub open spec fn chunk_result(hash: Seq<u8>, read: ReadView) -> Result<Seq<u8>, StorageError> {
    if hash.len() != 32 {
        Err(StorageError::InvalidHash)
    } else {
        match read {
            ReadView::Data(bytes) => Ok(bytes),
            ReadView::Missing => Err(StorageError::NotFound),
            ReadView::Failed => Err(StorageError::Io),
        }
    }
}

/// The path of the file to delete when a reference to `hash` is released:
/// that of the chunk, where the reference is its last.
pub open spec fn doomed_path(refs: Map<Seq<u8>, nat>, hash: Seq<u8>) -> Option<Seq<char>> {
    if count_of(refs, hash) == 1 {
        Some(chunk_path(hash))
    } else {
        None
    }
}

/// Whether a file of this name is garbage: the name stands for a hash, and no
/// file refers to that hash.
pub open spec fn is_orphan(refs: Map<Seq<u8>, nat>, name: Seq<char>) -> bool {
    match hex_decode(name) {
        Some(hash) => !refs.contains_key(hash),
        None => false,
    }
}

/// The texts of a list of strings.
pub open spec fn texts(names: Seq<String>) -> Seq<Seq<char>> {
    Seq::new(names.len(), |i: int| names[i]@)
}

/// Whether one of `victims` is the place `i`.
pub open spec fn points_at(victims: Seq<usize>, i: int) -> bool {
    exists|k: int| 0 <= k < victims.len() && (#[trigger] victims[k]) == i
}

/// Whether `victims` are the places of the orphans among `names`, each once
/// and in rising order.
pub open spec fn is_sweep(
    refs: Map<Seq<u8>, nat>,
    names: Seq<Seq<char>>,
    victims: Seq<usize>,
) -> bool {
    &&& forall|k: int|
        0 <= k < victims.len() ==> (#[trigger] victims[k]) < names.len() && is_orphan(
            refs,
            names[victims[k] as int],
        )
    &&& forall|i: int|
        0 <= i < names.len() && is_orphan(refs, #[trigger] names[i]) ==> points_at(victims, i)
    &&& forall|k: int, l: int|
        0 <= k < l < victims.len() ==> (#[trigger] victims[k]) < (#[trigger] victims[l])
}

/// What came of looking a file up in the cache.
#[derive(Debug, PartialEq)]
pub enum FileLookup {
    /// The cache holds the record.
    Cached(FileInfo),
    /// The cache does not hold it; the record, if there is one, is in the
    /// file at this path.
    Load(String),
}

/// A record on its way to disk: `record` is to be written, serialized, to
/// the file at `path`, in place of what is there.
#[derive(Debug, PartialEq)]
pub struct MetadataWrite {
    pub path: String,
    pub record: FileInfo,
}

impl Cell {
    /// Whether the cell is sound inside. Every cell that this module hands
    /// out is.
    pub closed spec fn wf(&self) -> bool {
        &&& self.chunk_refs.wf()
        &&& self.file_index.wf()
    }

    /// What holds of every sound cell: the reference table keeps positive
    /// counts of 32-byte hashes and no entry at zero, and the cache files
    /// every record under its own file id.
    pub proof fn lemma_invariants(&self)
        requires
            self.wf(),
        ensures
            table_valid(self@.refs),
            forall|file_id: Seq<char>| #[trigger]
                self@.cache.contains_key(file_id) ==> self@.cache[file_id].file_id == file_id,
    {
        self.chunk_refs.lemma_valid();
        assert forall|file_id: Seq<char>| #[trigger]
            self@.cache.contains_key(file_id) implies self@.cache[file_id].file_id == file_id by {
            self.file_index.lemma_keyed_by_id(file_id);
        }
    }

    /// A cell for the storage root `base_path`, with nothing referenced and
    /// nothing cached. The root and the two directories under it, named by
    /// `storage_dirs`, are the caller's to create.
    pub fn new(base_path: PathBuf, chunk_size: u32) -> (cell: Cell)
        ensures
            cell.wf(),
            cell@ == (CellView {
                base_path: base_path,
                default_chunk_size: chunk_size,
                refs: Map::empty(),
                cache: Map::empty(),
            }),
    {
        Cell {
            base_path,
            file_index: MetadataIndex::new(),
            default_chunk_size: chunk_size,
            chunk_refs: RefCounter::new(),
        }
    }

    /// The storage root.
    pub fn base_path(&self) -> (path: &PathBuf)
        ensures
            *path == self@.base_path,
    {
        &self.base_path
    }

    /// The chunk size for new files.
    pub fn default_chunk_size(&self) -> (size: u32)
        ensures
            size == self@.default_chunk_size,
    {
        self.default_chunk_size
    }

    /// The number of files that refer to the chunk `hash_bytes`.
    pub fn ref_count(&self, hash_bytes: &[u8]) -> (count: u32)
        requires
            self.wf(),
        ensures
            count == count_of(self@.refs, hash_bytes@),
    {
        self.chunk_refs.count(hash_bytes)
    }

    /// First step of storing a chunk: hashes `data`, makes the record of the
    /// chunk for `file_id` at position `index`, and says where the payload
    /// lives. Signature and sequence number of the record are left unset.
    /// The payload must be short enough for its length to fit the record.
    pub fn prepare_store(data: &[u8], file_id: &str, index: u32) -> (pending: PendingStore)
        requires
            data@.len() <= u32::MAX,
        ensures
            pending.wf(),
            pending.hash() == blake3_digest(data@)@,
            pending.dir() == shard_dir(blake3_digest(data@)@),
            pending.path() == chunk_path(blake3_digest(data@)@),
            pending.chunk()@ == (ChunkView {
                hash: blake3_digest(data@)@,
                size: data@.len() as u32,
                index,
                file_id: file_id@,
                signature: None,
                sequence: 0,
            }),
    {
        let hash = blake3_hash(data);
        let chunk = Chunk {
            hash_bytes: vstd::slice::slice_to_vec(hash.as_slice()),
            size: data.len() as u32,
            index,
            file_id: file_id.to_owned(),
            signature: None,
            sequence: 0,
        };
        let (dir, path) = chunk_location(&hash);
        PendingStore { chunk, hash, dir, path }
    }

    /// Adds one reference to a chunk.
    fn inc_chunk_ref(&mut self, hash: &[u8; 32])
        requires
            old(self).wf(),
            count_of(old(self)@.refs, hash@) < u32::MAX,
        ensures
            final(self).wf(),
            final(self)@ == old(self)@.referencing(hash@),
    {
        self.chunk_refs.increment(hash);
    }

    /// Last step of storing a chunk, once its payload is on disk: counts one
    /// more reference to it, whether the payload was written for this store
    /// or found in place, and hands out the record. The count must have room
    /// for one more.
    pub fn store_chunk(&mut self, pending: PendingStore) -> (chunk: Chunk)
        requires
            old(self).wf(),
            pending.wf(),
            count_of(old(self)@.refs, pending.hash()) < u32::MAX,
        ensures
            final(self).wf(),
            final(self)@ == old(self)@.referencing(pending.hash()),
            chunk == pending.chunk(),
    {
        self.inc_chunk_ref(&pending.hash);
        pending.chunk
    }

    /// The path of the file of the chunk `hash_bytes`, relative to the
    /// storage root, or `InvalidHash` where these are not 32 bytes.
    pub fn get_chunk_path(&self, hash_bytes: &[u8]) -> (path: Result<String, StorageError>)
        ensures
            match path {
                Ok(found) => hash_bytes@.len() == 32 && found@ == chunk_path(hash_bytes@),
                Err(error) => error == StorageError::InvalidHash && hash_bytes@.len() != 32,
            },
    {
        match hash_from_bytes(hash_bytes) {
            Ok(hash) => Ok(chunk_location(&hash).1),
            Err(error) => Err(error),
        }
    }

    /// The payload of the chunk `hash_bytes`, given what came of reading the
    /// file at its path: the bytes as read, `NotFound` where there is no
    /// file, `Io` where reading failed, and `InvalidHash`, before anything
    /// else, where `hash_bytes` is not 32 bytes. The bytes are not hashed
    /// again: `content_matches` does that for a reader who wants it.
    pub fn get_chunk(&self, hash_bytes: &[u8], read: ReadOutcome) -> (payload: Result<
        Vec<u8>,
        StorageError,
    >)
        ensures
            match payload {
                Ok(bytes) => chunk_result(hash_bytes@, read@) == Ok::<Seq<u8>, StorageError>(
                    bytes@,
                ),
                Err(error) => chunk_result(hash_bytes@, read@) == Err::<Seq<u8>, StorageError>(
                    error,
                ),
            },
    {
        if hash_bytes.len() != 32 {
            return Err(StorageError::InvalidHash);
        }
        match read {
            ReadOutcome::Data(bytes) => Ok(bytes),
            ReadOutcome::Missing => Err(StorageError::NotFound),
            ReadOutcome::Failed => Err(StorageError::Io),
        }
    }

    /// Takes away one reference to the chunk `hash_bytes`. Where it was the
    /// last, the entry goes, and the answer is the path of the chunk's file:
    /// the caller deletes it if it is there. A chunk without references is
    /// left alone.
    pub fn dec_chunk_ref(&mut self, hash_bytes: &[u8]) -> (remove: Option<String>)
        requires
            old(self).wf(),
        ensures
            final(self).wf(),
            final(self)@ == old(self)@.releasing(hash_bytes@),
            match remove {
                Some(path) => doomed_path(old(self)@.refs, hash_bytes@) == Some(path@),
                None => doomed_path(old(self)@.refs, hash_bytes@) is None,
            },
    {
        proof {
            self.lemma_invariants();
        }
        if self.chunk_refs.decrement(hash_bytes) {
            match hash_from_bytes(hash_bytes) {
                Ok(hash) => Some(chunk_location(&hash).1),
                Err(_) => None,
            }
        } else {
            None
        }
    }

    /// Picks the garbage among the files of the chunk directory. `names` are
    /// the names of the files found there, in any order; the answer is the
    /// places in `names` of the files to delete, each once and in rising
    /// order: those whose name stands for a hash that no file refers to. A
    /// file whose name stands for no hash is kept. The number of files
    /// removed is the length of the answer.
    pub fn collect_garbage(&self, names: &Vec<String>) -> (victims: Vec<usize>)
        requires
            self.wf(),
        ensures
            is_sweep(self@.refs, texts(names@), victims@),
    {
        let mut victims: Vec<usize> = Vec::new();
        let mut i: usize = 0;
        while i < names.len()
            invariant
                self.wf(),
                0 <= i <= names@.len(),
                forall|k: int|
                    0 <= k < victims@.len() ==> (#[trigger] victims@[k]) < i && is_orphan(
                        self@.refs,
                        names@[victims@[k] as int]@,
                    ),
                forall|j: int|
                    0 <= j < i && is_orphan(self@.refs, (#[trigger] names@[j])@) ==> points_at(
                        victims@,
                        j,
                    ),
                forall|k: int, l: int|
                    0 <= k < l < victims@.len() ==> (#[trigger] victims@[k]) < (
                    #[trigger] victims@[l]),
            decreases names@.len() - i,
        {
            let garbage = match decode_hex(names[i].as_str()) {
                Some(hash) => !self.chunk_refs.contains(hash.as_slice()),
                None => false,
            };
            let ghost before = victims@;
            if garbage {
                victims.push(i);
                assert(victims@[before.len() as int] == i);
            }
            assert forall|j: int|
                0 <= j < i + 1 && is_orphan(
                    self@.refs,
                    (#[trigger] names@[j])@,
                ) implies points_at(victims@, j) by {
                if j < i {
                    assert(points_at(before, j));
                    let k = choose|k: int| 0 <= k < before.len() && (#[trigger] before[k]) == j;
                    assert(victims@[k] == j);
                } else {
                    assert(victims@[before.len() as int] == j);
                }
            }
            i = i + 1;
        }
        victims
    }

    /// Caches `info` under its file id, in place of any record that was
    /// there, and hands it back with the path of its file: the caller writes
    /// the record there. After that write the cache and the disk agree.
    pub fn store_file_info(&mut self, info: FileInfo) -> (write: MetadataWrite)
        requires
            old(self).wf(),
        ensures
            final(self).wf(),
            final(self)@ == old(self)@.caching(info@),
            write.path@ == metadata_path(info@.file_id),
            write.record@ == info@,
    {
        let path = get_metadata_path(info.file_id.as_str());
        self.file_index.put(info.clone());
        MetadataWrite { path, record: info }
    }

    /// Looks the file `file_id` up in the cache. On a miss the answer is the
    /// path of the file that holds the record, if any does: the caller loads
    /// it and goes on with `load_file_info`.
    pub fn get_file_info(&self, file_id: &str) -> (lookup: FileLookup)
        requires
            self.wf(),
        ensures
            match lookup {
                FileLookup::Cached(info) => self@.cache.contains_key(file_id@) && info@
                    == self@.cache[file_id@],
                FileLookup::Load(path) => !self@.cache.contains_key(file_id@) && path@
                    == metadata_path(file_id@),
            },
    {
        match self.file_index.get(file_id) {
            Some(info) => FileLookup::Cached(info),
            None => FileLookup::Load(get_metadata_path(file_id)),
        }
    }

    /// Ends a lookup that missed the cache, given what came of loading the
    /// record from its file. A record that was loaded is cached under its
    /// file id and handed out; no file means no such record, which is no
    /// failure; a file that cannot be read is `Io`, and one that holds no
    /// record is `Deserialize`.
    pub fn load_file_info(&mut self, loaded: LoadOutcome) -> (found: Result<
        Option<FileInfo>,
        StorageError,
    >)
        requires
            old(self).wf(),
        ensures
            final(self).wf(),
            match loaded@ {
                LoadView::Record(record) => {
                    &&& found matches Ok(Some(info))
                    &&& info@ == record
                    &&& final(self)@ == old(self)@.caching(record)
                },
                LoadView::Missing => found == Ok::<Option<FileInfo>, StorageError>(None)
                    && final(self)@ == old(self)@,
                LoadView::Unreadable => found == Err::<Option<FileInfo>, StorageError>(
                    StorageError::Io,
                ) && final(self)@ == old(self)@,
                LoadView::Corrupt => found == Err::<Option<FileInfo>, StorageError>(
                    StorageError::Deserialize,
                ) && final(self)@ == old(self)@,
            },
    {
        match loaded {
            LoadOutcome::Record(info) => {
                self.file_index.put(info.clone());
                Ok(Some(info))
            },
            LoadOutcome::Missing => Ok(None),
            LoadOutcome::Unreadable => Err(StorageError::Io),
            LoadOutcome::Corrupt => Err(StorageError::Deserialize),
        }
    }

    /// A request for the chunk at position `chunk_index` of the file
    /// `file_id`, from its start.
    pub fn create_chunk_request(
        &self,
        file_id: &str,
        chunk_index: u32,
        priority: Priority,
        requester_id: Vec<u8>,
    ) -> (request: ChunkRequest)
        ensures
            request.file_id@ == file_id@,
            request.chunk_index == chunk_index,
            request.offset == 0,
            request.requester_id == requester_id,
            request.priority == wire_of_priority(priority),
    {
        ChunkRequest {
            file_id: file_id.to_owned(),
            chunk_index,
            offset: 0,
            requester_id,
            priority: priority.to_wire(),
        }
    }

    /// The message that carries the payload of `chunk`, given what came of
    /// reading its file. It fails as `get_chunk` does.
    pub fn create_chunk_data(&self, chunk: &Chunk, read: ReadOutcome) -> (message: Result<
        ChunkData,
        StorageError,
    >)
        ensures
            match message {
                Ok(data) => {
                    &&& chunk_result(chunk@.hash, read@) == Ok::<Seq<u8>, StorageError>(data.data@)
                    &&& data.file_id@ == chunk@.file_id
                    &&& data.chunk_index == chunk@.index
                    &&& data.signature@ == wire_signature(chunk@.signature)
                    &&& data.sequence == chunk@.sequence
                },
                Err(error) => chunk_result(chunk@.hash, read@) == Err::<Seq<u8>, StorageError>(
                    error,
                ),
            },
    {
        match self.get_chunk(chunk.hash_bytes.as_slice(), read) {
            Ok(data) => Ok(
                ChunkData {
                    file_id: chunk.file_id.clone(),
                    chunk_index: chunk.index,
                    data,
                    signature: match &chunk.signature {
                        Some(bytes) => bytes.clone(),
                        None => Vec::new(),
                    },
                    sequence: chunk.sequence,
                },
            ),
            Err(error) => Err(error),
        }
    }
}

} // verus!
