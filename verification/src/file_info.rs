//! The metadata of one logical file.

use crate::digest::hash_from_bytes;
use crate::error::StorageError;
use crate::proto::FileMetadata;
use std::collections::HashMap;
use vstd::prelude::*;

verus! {

/// Describes a file assembled from chunks.
#[derive(Debug, PartialEq)]
pub struct FileInfo {
    /// Identifies the file on this node; the caller picks it.
    pub file_id: String,
    pub name: String,
    /// Length of the whole file in bytes.
    pub size: u64,
    /// The size the file was cut into chunks with; the last chunk may be
    /// shorter.
    pub chunk_size: u32,
    pub mime_type: String,
    /// The hashes of the chunks in file order: what the file is rebuilt from.
    pub chunk_hashes: Vec<Vec<u8>>,
    /// Seconds since the epoch.
    pub created_at: u64,
    /// Revision of the metadata, growing with each change.
    pub version: u64,
    pub category: Option<String>,
    /// Carried along, never checked here.
    pub signature: Option<Vec<u8>>,
    /// Digests of the whole file, by the name of the algorithm.
    pub checksums: HashMap<String, Vec<u8>>,
    pub tags: HashMap<String, String>,
}

/// What a `FileInfo` holds, field by field.
pub struct FileInfoView {
    pub file_id: Seq<char>,
    pub name: Seq<char>,
    pub size: u64,
    pub chunk_size: u32,
    pub mime_type: Seq<char>,
    pub chunk_hashes: Seq<Seq<u8>>,
    pub created_at: u64,
    pub version: u64,
    pub category: Option<Seq<char>>,
    pub signature: Option<Seq<u8>>,
    pub checksums: Map<String, Vec<u8>>,
    pub tags: Map<String, String>,
}

/// The hashes in a list of byte strings.
pub open spec fn hashes_view(hashes: Seq<Vec<u8>>) -> Seq<Seq<u8>> {
    Seq::new(hashes.len(), |i: int| hashes[i]@)
}

/// The first hash of a list, or no bytes for an empty list.
pub open spec fn first_hash(hashes: Seq<Seq<u8>>) -> Seq<u8> {
    if hashes.len() > 0 {
        hashes[0]
    } else {
        Seq::empty()
    }
}

/// Whether every hash of a list is 32 bytes long.
pub open spec fn all_fixed(hashes: Seq<Seq<u8>>) -> bool {
    forall|i: int| 0 <= i < hashes.len() ==> (#[trigger] hashes[i]).len() == 32
}

impl View for FileInfo {
    type V = FileInfoView;

    open spec fn view(&self) -> FileInfoView {
        FileInfoView {
            file_id: self.file_id@,
            name: self.name@,
            size: self.size,
            chunk_size: self.chunk_size,
            mime_type: self.mime_type@,
            chunk_hashes: hashes_view(self.chunk_hashes@),
            created_at: self.created_at,
            version: self.version,
            category: match self.category {
                Some(text) => Some(text@),
                None => None,
            },
            signature: match self.signature {
                Some(bytes) => Some(bytes@),
                None => None,
            },
            checksums: self.checksums@,
            tags: self.tags@,
        }
    }
}

/// The record that a reader of `meta` ends up with. Of the chunk hashes only
/// the one that the wire form carries is known; category and signature are
/// present, though possibly empty.
pub open spec fn info_of_wire(meta: FileMetadata) -> FileInfoView {
    FileInfoView {
        file_id: meta.file_id@,
        name: meta.name@,
        size: meta.size,
        chunk_size: meta.chunk_size,
        mime_type: meta.mime_type@,
        chunk_hashes: seq![meta.hash@],
        created_at: meta.created_at,
        version: meta.version,
        category: Some(meta.category@),
        signature: Some(meta.signature@),
        checksums: meta.checksums@,
        tags: meta.tags@,
    }
}

/// A copy of a list of hashes.
fn clone_hashes(hashes: &Vec<Vec<u8>>) -> (copy: Vec<Vec<u8>>)
    ensures
        hashes_view(copy@) == hashes_view(hashes@),
{
    let mut copy: Vec<Vec<u8>> = Vec::new();
    let mut i: usize = 0;
    while i < hashes.len()
        invariant
            0 <= i <= hashes@.len(),
            copy@.len() == i,
            forall|k: int| 0 <= k < i ==> copy@[k]@ == hashes@[k]@,
        decreases hashes@.len() - i,
    {
        copy.push(hashes[i].clone());
        i = i + 1;
    }
    assert(hashes_view(copy@) =~= hashes_view(hashes@));
    copy
}

impl FileInfo {
    /// The chunk hashes as fixed 32 bytes each, in file order, or
    /// `InvalidHash` where any of them has another length.
    pub fn chunk_hashes_as_hash(&self) -> (hashes: Result<Vec<[u8; 32]>, StorageError>)
        ensures
            match hashes {
                Ok(fixed) => {
                    &&& all_fixed(self@.chunk_hashes)
                    &&& fixed@.len() == self@.chunk_hashes.len()
                    &&& forall|i: int|
                        0 <= i < fixed@.len() ==> (#[trigger] fixed@[i])@ == self@.chunk_hashes[i]
                },
                Err(error) => error == StorageError::InvalidHash && !all_fixed(
                    self@.chunk_hashes,
                ),
            },
    {
        let mut fixed: Vec<[u8; 32]> = Vec::new();
        let mut i: usize = 0;
        while i < self.chunk_hashes.len()
            invariant
                0 <= i <= self.chunk_hashes@.len(),
                fixed@.len() == i,
                forall|k: int| 0 <= k < i ==> (#[trigger] fixed@[k])@ == self.chunk_hashes@[k]@,
            decreases self.chunk_hashes@.len() - i,
        {
            match hash_from_bytes(self.chunk_hashes[i].as_slice()) {
                Ok(hash) => {
                    fixed.push(hash);
                },
                Err(error) => {
                    assert(self@.chunk_hashes[i as int].len() != 32);
                    return Err(error);
                },
            }
            i = i + 1;
        }
        assert forall|k: int| 0 <= k < self@.chunk_hashes.len() implies (
        #[trigger] self@.chunk_hashes[k]).len() == 32 by {
            assert(fixed@[k]@ == self.chunk_hashes@[k]@);
        }
        Ok(fixed)
    }

    /// The wire form of this record. It is lossy: of the chunk hashes only the
    /// first travels, and an absent category or signature travels as an empty
    /// one.
    pub fn to_proto(&self) -> (meta: FileMetadata)
        ensures
            meta.file_id@ == self@.file_id,
            meta.name@ == self@.name,
            meta.size == self@.size,
            meta.chunk_size == self@.chunk_size,
            meta.mime_type@ == self@.mime_type,
            meta.hash@ == first_hash(self@.chunk_hashes),
            meta.tags@ == self@.tags,
            meta.created_at == self@.created_at,
            meta.version == self@.version,
            meta.category@ == match self@.category {
                Some(text) => text,
                None => Seq::empty(),
            },
            meta.signature@ == match self@.signature {
                Some(bytes) => bytes,
                None => Seq::empty(),
            },
            meta.checksums@ == self@.checksums,
    {
        FileMetadata {
            file_id: self.file_id.clone(),
            name: self.name.clone(),
            size: self.size,
            chunk_size: self.chunk_size,
            mime_type: self.mime_type.clone(),
            hash: if self.chunk_hashes.len() > 0 {
                self.chunk_hashes[0].clone()
            } else {
                Vec::new()
            },
            tags: self.tags.clone(),
            created_at: self.created_at,
            version: self.version,
            category: match &self.category {
                Some(text) => text.clone(),
                None => String::new(),
            },
            signature: match &self.signature {
                Some(bytes) => bytes.clone(),
                None => Vec::new(),
            },
            checksums: self.checksums.clone(),
        }
    }

    /// The record read from its wire form.
    pub fn from_proto(meta: FileMetadata) -> (info: FileInfo)
        ensures
            info@ == info_of_wire(meta),
    {
        let info = FileInfo {
            file_id: meta.file_id,
            name: meta.name,
            size: meta.size,
            chunk_size: meta.chunk_size,
            mime_type: meta.mime_type,
            chunk_hashes: vec![meta.hash],
            created_at: meta.created_at,
            version: meta.version,
            category: Some(meta.category),
            signature: Some(meta.signature),
            checksums: meta.checksums,
            tags: meta.tags,
        };
        assert(info@.chunk_hashes =~= seq![meta.hash@]);
        info
    }
}

impl Clone for FileInfo {
    fn clone(&self) -> (copy: FileInfo)
        ensures
            copy@ == self@,
    {
        FileInfo {
            file_id: self.file_id.clone(),
            name: self.name.clone(),
            size: self.size,
            chunk_size: self.chunk_size,
            mime_type: self.mime_type.clone(),
            chunk_hashes: clone_hashes(&self.chunk_hashes),
            created_at: self.created_at,
            version: self.version,
            category: match &self.category {
                Some(text) => Some(text.clone()),
                None => None,
            },
            signature: match &self.signature {
                Some(bytes) => Some(bytes.clone()),
                None => None,
            },
            checksums: self.checksums.clone(),
            tags: self.tags.clone(),
        }
    }
}

} // verus!
