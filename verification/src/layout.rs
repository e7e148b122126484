//! Where things live under the storage root.
//!
//! ```text
//! <root>/chunks/<first four digits of the name>/<name>    one file per chunk
//! <root>/metadata/<file id>.json                           one file per record
//! ```
//!
//! Paths are relative to the root and use `/` between their parts. Sharding
//! the chunks by the start of their names bounds the size of any one
//! directory.

use crate::digest::{hash_to_hex, hex_encode, lemma_encode_injective};
use vstd::prelude::*;
use vstd::string::*;

verus! {

/// The directory of the chunk files.
pub open spec fn chunks_dir() -> Seq<char> {
    "chunks"@
}

/// The directory of the metadata records.
pub open spec fn metadata_dir() -> Seq<char> {
    "metadata"@
}

/// The directory of the chunk with content hash `hash`: the shard named by
/// the first four digits of the chunk's name.
pub open spec fn shard_dir(hash: Seq<u8>) -> Seq<char> {
    "chunks/"@ + hex_encode(hash).take(4)
}

/// The path of the chunk with content hash `hash`.
pub open spec fn chunk_path(hash: Seq<u8>) -> Seq<char> {
    shard_dir(hash) + "/"@ + hex_encode(hash)
}

/// The path of the metadata record of the file `file_id`.
pub open spec fn metadata_path(file_id: Seq<char>) -> Seq<char> {
    "metadata/"@ + file_id + ".json"@
}

/// Chunks with different hashes live at different paths.
pub proof fn lemma_chunk_path_injective(a: Seq<u8>, b: Seq<u8>)
    requires
        a.len() == 32,
        b.len() == 32,
        chunk_path(a) == chunk_path(b),
    ensures
        a == b,
{
    reveal_strlit("chunks/");
    reveal_strlit("/");
    let name_a = hex_encode(a);
    let name_b = hex_encode(b);
    assert(name_a =~= chunk_path(a).skip(12));
    assert(name_b =~= chunk_path(b).skip(12));
    lemma_encode_injective(a, b);
}

/// The records of different files live at different paths.
pub proof fn lemma_metadata_path_injective(a: Seq<char>, b: Seq<char>)
    requires
        metadata_path(a) == metadata_path(b),
    ensures
        a == b,
{
    reveal_strlit("metadata/");
    reveal_strlit(".json");
    let path = metadata_path(a);
    assert(path.len() == 9 + a.len() + 5);
    assert(path.len() == 9 + b.len() + 5);
    assert(a =~= path.subrange(9, 9 + a.len() as int));
    assert(b =~= metadata_path(b).subrange(9, 9 + b.len() as int));
}

/// The names of the two directories that a storage root holds, chunks first.
pub fn storage_dirs() -> (dirs: (&'static str, &'static str))
    ensures
        dirs.0@ == chunks_dir(),
        dirs.1@ == metadata_dir(),
{
    ("chunks", "metadata")
}

/// The directory and the path of the chunk with content hash `hash`.
pub fn chunk_location(hash: &[u8; 32]) -> (place: (String, String))
    ensures
        place.0@ == shard_dir(hash@),
        place.1@ == chunk_path(hash@),
{
    let name = hash_to_hex(hash);
    let shard = name.as_str().substring_char(0, 4);
    let mut dir = String::from_str("chunks/");
    dir.append(shard);
    let mut path = dir.clone();
    path.append("/");
    path.append(name.as_str());
    (dir, path)
}

/// The path of the metadata record of the file `file_id`.
pub fn get_metadata_path(file_id: &str) -> (path: String)
    ensures
        path@ == metadata_path(file_id@),
{
    let mut path = String::from_str("metadata/");
    path.append(file_id);
    path.append(".json");
    path
}

} // verus!
