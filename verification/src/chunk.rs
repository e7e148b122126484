//! The record of one stored chunk.

use crate::digest::hash_from_bytes;
use crate::error::StorageError;
use crate::proto::ChunkInfo;
use vstd::prelude::*;

verus! {

/// A content-addressed unit of file data, as registered by one file.
#[derive(Debug, PartialEq)]
pub struct Chunk {
    /// BLAKE3 digest of the payload: the key under which it is stored.
    pub hash_bytes: Vec<u8>,
    /// Length of the payload in bytes.
    pub size: u32,
    /// Position of the chunk in its file, from 0.
    pub index: u32,
    /// The file that registered the chunk.
    pub file_id: String,
    /// Carried along, never checked here.
    pub signature: Option<Vec<u8>>,
    /// Position in the order of transmission; 0 until one is assigned.
    pub sequence: u64,
}

/// What a `Chunk` holds, field by field.
pub struct ChunkView {
    pub hash: Seq<u8>,
    pub size: u32,
    pub index: u32,
    pub file_id: Seq<char>,
    pub signature: Option<Seq<u8>>,
    pub sequence: u64,
}

impl View for Chunk {
    type V = ChunkView;

    open spec fn view(&self) -> ChunkView {
        ChunkView {
            hash: self.hash_bytes@,
            size: self.size,
            index: self.index,
            file_id: self.file_id@,
            signature: match self.signature {
                Some(bytes) => Some(bytes@),
                None => None,
            },
            sequence: self.sequence,
        }
    }
}

/// The signature as it travels: an absent one as no bytes.
pub open spec fn wire_signature(signature: Option<Seq<u8>>) -> Seq<u8> {
    match signature {
        Some(bytes) => bytes,
        None => Seq::empty(),
    }
}

impl Chunk {
    /// The content hash as a fixed 32 bytes, or `InvalidHash` where the record
    /// holds any other number of bytes.
    pub fn hash(&self) -> (hash: Result<[u8; 32], StorageError>)
        ensures
            match hash {
                Ok(bytes) => bytes@ == self@.hash,
                Err(error) => error == StorageError::InvalidHash && self@.hash.len() != 32,
            },
    {
        hash_from_bytes(self.hash_bytes.as_slice())
    }

    /// The description of this chunk that goes on the wire.
    pub fn to_proto(&self) -> (info: ChunkInfo)
        ensures
            info.file_id@ == self@.file_id,
            info.index == self@.index,
            info.hash@ == self@.hash,
            info.size == self@.size,
            info.signature@ == wire_signature(self@.signature),
            info.sequence == self@.sequence,
    {
        ChunkInfo {
            file_id: self.file_id.clone(),
            index: self.index,
            hash: self.hash_bytes.clone(),
            size: self.size,
            signature: match &self.signature {
                Some(bytes) => bytes.clone(),
                None => Vec::new(),
            },
            sequence: self.sequence,
        }
    }
}

impl Clone for Chunk {
    fn clone(&self) -> (copy: Chunk)
        ensures
            copy@ == self@,
    {
        Chunk {
            hash_bytes: self.hash_bytes.clone(),
            size: self.size,
            index: self.index,
            file_id: self.file_id.clone(),
            signature: match &self.signature {
                Some(bytes) => Some(bytes.clone()),
                None => None,
            },
            sequence: self.sequence,
        }
    }
}

} // verus!
