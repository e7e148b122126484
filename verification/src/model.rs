//! The node and its disk as one mathematical state.
//!
//! A `World` is what a `Cell` holds together with the files under its
//! storage root. Each operation of the cell is a step of the world: the
//! cell's half of the step is what the contract of the operation states, and
//! the disk's half is what its caller does on the cell's word. The steps are
//! written with the same functions as the contracts, so that what is proved
//! of the steps is proved of a node whose caller does as it is told, on a
//! disk that works.

use crate::cell::{chunk_result, doomed_path, CellView};
use crate::digest::blake3_digest;
use crate::disk::{load_of, read_of, LoadView};
use crate::error::StorageError;
use crate::file_info::FileInfoView;
use crate::layout::{chunk_path, metadata_path};
use vstd::prelude::*;

verus! {

/// A node and its disk.
pub struct World {
    /// What the cell holds.
    pub cell: CellView,
    /// The files of the chunk directory: contents by path.
    pub chunks: Map<Seq<char>, Seq<u8>>,
    /// The files of the metadata directory: the record that each holds, by
    /// path.
    pub records: Map<Seq<char>, FileInfoView>,
}

/// The last part of a path: what follows its last `/`.
pub open spec fn file_name(path: Seq<char>) -> Seq<char>
    decreases path.len(),
{
    if path.len() == 0 || path.last() == '/' {
        Seq::empty()
    } else {
        file_name(path.drop_last()).push(path.last())
    }
}

/// The names of the files at `paths`.
pub open spec fn names_of(paths: Seq<Seq<char>>) -> Seq<Seq<char>> {
    Seq::new(paths.len(), |i: int| file_name(paths[i]))
}

/// Whether `path` is one of those that `victims` point at in `paths`.
pub open spec fn is_victim(paths: Seq<Seq<char>>, victims: Seq<usize>, path: Seq<char>) -> bool {
    exists|k: int|
        0 <= k < victims.len() && (#[trigger] victims[k]) < paths.len() && paths[victims[k] as int]
            == path
}

impl World {
    /// The world after `data` was stored. The payload is written at the path
    /// that `Cell::prepare_store` names, where `PendingStore::needs_write`
    /// says so: unless a file is there. The hash gains a reference either
    /// way, by `Cell::store_chunk`.
    pub open spec fn store(self, data: Seq<u8>) -> World {
        let hash = blake3_digest(data)@;
        let path = chunk_path(hash);
        let present = self.chunks.contains_key(path);
        World {
            cell: self.cell.referencing(hash),
            chunks: if !present {
                self.chunks.insert(path, data)
            } else {
                self.chunks
            },
            ..self
        }
    }

    /// The world after a reference to `hash` was released by
    /// `Cell::dec_chunk_ref`: the hash loses a reference, and the file that
    /// the call names, the chunk's with its last reference, is deleted.
    pub open spec fn release(self, hash: Seq<u8>) -> World {
        World {
            cell: self.cell.releasing(hash),
            chunks: match doomed_path(self.cell.refs, hash) {
                Some(path) => self.chunks.remove(path),
                None => self.chunks,
            },
            ..self
        }
    }

    /// What `Cell::get_chunk` gives for the chunk `hash` in this world, where
    /// reading works.
    pub open spec fn retrieve(self, hash: Seq<u8>) -> Result<Seq<u8>, StorageError> {
        chunk_result(hash, read_of(self.chunks, chunk_path(hash)))
    }

    /// The world after `n` stores of `data`.
    pub open spec fn store_times(self, data: Seq<u8>, n: nat) -> World
        decreases n,
    {
        if n == 0 {
            self
        } else {
            self.store_times(data, (n - 1) as nat).store(data)
        }
    }

    /// The world after `n` releases of `hash`.
    pub open spec fn release_times(self, hash: Seq<u8>, n: nat) -> World
        decreases n,
    {
        if n == 0 {
            self
        } else {
            self.release_times(hash, (n - 1) as nat).release(hash)
        }
    }

    /// The world after a sweep that found the chunk files at `paths` and
    /// deleted those that `victims` point at: the answer of
    /// `Cell::collect_garbage` to the names of those files.
    pub open spec fn sweep(self, paths: Seq<Seq<char>>, victims: Seq<usize>) -> World {
        World {
            chunks: Map::new(
                |path: Seq<char>| self.chunks.contains_key(path) && !is_victim(paths, victims, path),
                |path: Seq<char>| self.chunks[path],
            ),
            ..self
        }
    }

    /// The world after `info` was put by `Cell::store_file_info`: the record
    /// is in the cache and, written by the caller, in its file.
    pub open spec fn put(self, info: FileInfoView) -> World {
        World {
            cell: self.cell.caching(info),
            records: self.records.insert(metadata_path(info.file_id), info),
            ..self
        }
    }

    /// The world after the cache was emptied, as a restart of the node
    /// empties it.
    pub open spec fn evict(self) -> World {
        World { cell: CellView { cache: Map::empty(), ..self.cell }, ..self }
    }

    /// The world after the record of `file_id` was got: a record that
    /// `Cell::get_file_info` missed and `Cell::load_file_info` was handed
    /// from its file is in the cache from then on.
    pub open spec fn fetch(self, file_id: Seq<char>) -> World {
        if self.cell.cache.contains_key(file_id) {
            self
        } else {
            match load_of(self.records, metadata_path(file_id)) {
                LoadView::Record(record) => World { cell: self.cell.caching(record), ..self },
                _ => self,
            }
        }
    }

    /// Whether the cache and the disk agree: every record file holds the
    /// record of the file that its path names, and every cached record is
    /// the one that its file holds.
    pub open spec fn cache_agrees(self) -> bool {
        &&& forall|path: Seq<char>| #[trigger]
            self.records.contains_key(path) ==> path == metadata_path(self.records[path].file_id)
        &&& forall|file_id: Seq<char>| #[trigger]
            self.cell.cache.contains_key(file_id) ==> self.records.contains_key(
                metadata_path(file_id),
            ) && self.records[metadata_path(file_id)] == self.cell.cache[file_id]
    }

    /// What getting the record of `file_id` gives in this world: the cached
    /// record or, on a miss, the one loaded from the file.
    pub open spec fn get(self, file_id: Seq<char>) -> Option<FileInfoView> {
        if self.cell.cache.contains_key(file_id) {
            Some(self.cell.cache[file_id])
        } else {
            match load_of(self.records, metadata_path(file_id)) {
                LoadView::Record(record) => Some(record),
                _ => None,
            }
        }
    }
}

/// Whether every chunk file that sits at the path of a hash holds content of
/// that hash.
pub open spec fn content_addressed(chunks: Map<Seq<char>, Seq<u8>>) -> bool {
    forall|hash: Seq<u8>|
        hash.len() == 32 && chunks.contains_key(#[trigger] chunk_path(hash)) ==> blake3_digest(
            chunks[chunk_path(hash)],
        )@ == hash
}

} // verus!
