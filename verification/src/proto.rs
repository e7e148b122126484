//! The messages of the chunk transfer protocol.
//!
//! These are the shapes that cross the wire. Fields that are optional inside
//! the node are plain here: an absent signature or category travels as an
//! empty one.

use std::collections::HashMap;
use vstd::prelude::*;

verus! {

/// Describes one chunk without carrying its payload.
#[derive(Debug, PartialEq)]
pub struct ChunkInfo {
    pub file_id: String,
    pub index: u32,
    pub hash: Vec<u8>,
    pub size: u32,
    pub signature: Vec<u8>,
    pub sequence: u64,
}

/// Solicits a chunk from a peer.
#[derive(Debug, PartialEq)]
pub struct ChunkRequest {
    pub file_id: String,
    pub chunk_index: u32,
    /// Where in the chunk to resume; 0 asks for the whole chunk.
    pub offset: u64,
    pub requester_id: Vec<u8>,
    /// 0 is low, 1 normal, 2 high; a reader takes any other number as normal.
    pub priority: i32,
}

/// Answers a `ChunkRequest` with the payload.
#[derive(Debug, PartialEq)]
pub struct ChunkData {
    pub file_id: String,
    pub chunk_index: u32,
    pub data: Vec<u8>,
    pub signature: Vec<u8>,
    /// Position in the order of transmission, which need not be the order of
    /// the chunks in the file.
    pub sequence: u64,
}

/// The wire form of a file's metadata. It carries the hash of the first chunk
/// only, as a fingerprint of the file.
#[derive(Debug, PartialEq)]
pub struct FileMetadata {
    pub file_id: String,
    pub name: String,
    pub size: u64,
    pub chunk_size: u32,
    pub mime_type: String,
    pub hash: Vec<u8>,
    pub tags: HashMap<String, String>,
    pub created_at: u64,
    pub version: u64,
    pub category: String,
    pub signature: Vec<u8>,
    pub checksums: HashMap<String, Vec<u8>>,
}

} // verus!
