//! Records on their way to the wire and back.

use hiveflow_core::cell::{Cell, Chunk, FileInfo, Priority};
use hiveflow_core::disk::ReadOutcome;
use hiveflow_core::error::StorageError;
use hiveflow_core::proto::{ChunkData, ChunkInfo, ChunkRequest, FileMetadata};
use hiveflow_core::refcount::RefCounter;
use std::collections::HashMap;
use std::path::PathBuf;

fn sample_chunk() -> Chunk {
    Chunk {
        hash_bytes: vec![0xAB; 32],
        size: 13,
        index: 2,
        file_id: "f1".to_string(),
        signature: Some(vec![9, 8, 7]),
        sequence: 77,
    }
}

fn sample_info() -> FileInfo {
    let mut checksums = HashMap::new();
    checksums.insert("md5".to_string(), vec![0xde, 0xad]);
    let mut tags = HashMap::new();
    tags.insert("lang".to_string(), "en".to_string());
    FileInfo {
        file_id: "doc".to_string(),
        name: "doc.txt".to_string(),
        size: 2500,
        chunk_size: 1024,
        mime_type: "text/plain".to_string(),
        chunk_hashes: vec![vec![1u8; 32], vec![2u8; 32], vec![3u8; 32]],
        created_at: 99,
        version: 3,
        category: Some("notes".to_string()),
        signature: Some(vec![5, 5]),
        checksums,
        tags,
    }
}

fn new_cell() -> Cell {
    Cell::new(PathBuf::from("/tmp/hive"), 1024)
}

#[test]
fn priority_numbers_name_the_three_levels() {
    assert_eq!(Priority::from(0), Priority::Low);
    assert_eq!(Priority::from(1), Priority::Normal);
    assert_eq!(Priority::from(2), Priority::High);
    assert_eq!(Priority::Low.to_wire(), 0);
    assert_eq!(Priority::Normal.to_wire(), 1);
    assert_eq!(Priority::High.to_wire(), 2);
}

#[test]
fn priority_levels_are_ordered() {
    assert!(Priority::Low < Priority::Normal);
    assert!(Priority::Normal < Priority::High);
    let mut levels = vec![Priority::High, Priority::Low, Priority::Normal];
    levels.sort();
    assert_eq!(levels, vec![Priority::Low, Priority::Normal, Priority::High]);
}

#[test]
fn out_of_range_priority_reads_as_normal() {
    for value in [3, -1, 7, 100, i32::MAX, i32::MIN] {
        assert_eq!(Priority::from(value), Priority::Normal);
    }
}

#[test]
fn request_built_from_an_unknown_priority_reads_back_as_normal() {
    let cell = new_cell();
    let request = cell.create_chunk_request("f1", 4, Priority::from(9), vec![1, 2]);
    assert_eq!(request.priority, 1);
    assert_eq!(Priority::from(request.priority), Priority::Normal);
}

#[test]
fn request_asks_for_the_chunk_from_its_start() {
    let cell = new_cell();
    let request = cell.create_chunk_request("f1", 4, Priority::High, vec![1, 2, 3]);
    assert_eq!(
        request,
        ChunkRequest {
            file_id: "f1".to_string(),
            chunk_index: 4,
            offset: 0,
            requester_id: vec![1, 2, 3],
            priority: 2,
        }
    );
}

#[test]
fn chunk_data_wraps_the_payload_read() {
    let cell = new_cell();
    let message = cell.create_chunk_data(&sample_chunk(), ReadOutcome::Data(vec![4, 5, 6]));
    assert_eq!(
        message,
        Ok(ChunkData {
            file_id: "f1".to_string(),
            chunk_index: 2,
            data: vec![4, 5, 6],
            signature: vec![9, 8, 7],
            sequence: 77,
        })
    );
}

#[test]
fn chunk_data_without_signature_carries_an_empty_one() {
    let cell = new_cell();
    let mut chunk = sample_chunk();
    chunk.signature = None;
    let message = cell.create_chunk_data(&chunk, ReadOutcome::Data(vec![])).unwrap();
    assert_eq!(message.signature, Vec::<u8>::new());
    assert_eq!(message.data, Vec::<u8>::new());
}

#[test]
fn chunk_data_fails_as_the_read_failed() {
    let cell = new_cell();
    assert_eq!(
        cell.create_chunk_data(&sample_chunk(), ReadOutcome::Missing),
        Err(StorageError::NotFound)
    );
    assert_eq!(
        cell.create_chunk_data(&sample_chunk(), ReadOutcome::Failed),
        Err(StorageError::Io)
    );
    let mut broken = sample_chunk();
    broken.hash_bytes = vec![1, 2, 3];
    assert_eq!(
        cell.create_chunk_data(&broken, ReadOutcome::Data(vec![1])),
        Err(StorageError::InvalidHash)
    );
}

#[test]
fn chunk_goes_on_the_wire_field_by_field() {
    assert_eq!(
        sample_chunk().to_proto(),
        ChunkInfo {
            file_id: "f1".to_string(),
            index: 2,
            hash: vec![0xAB; 32],
            size: 13,
            signature: vec![9, 8, 7],
            sequence: 77,
        }
    );
    let mut unsigned = sample_chunk();
    unsigned.signature = None;
    assert_eq!(unsigned.to_proto().signature, Vec::<u8>::new());
}

#[test]
fn chunk_hash_is_fixed_or_refused() {
    assert_eq!(sample_chunk().hash(), Ok([0xAB; 32]));
    let mut short = sample_chunk();
    short.hash_bytes.pop();
    assert_eq!(short.hash(), Err(StorageError::InvalidHash));
    let mut long = sample_chunk();
    long.hash_bytes.push(0);
    assert_eq!(long.hash(), Err(StorageError::InvalidHash));
}

#[test]
fn copy_of_a_chunk_equals_the_chunk() {
    assert_eq!(sample_chunk().clone(), sample_chunk());
}

#[test]
fn file_hashes_are_fixed_or_refused() {
    assert_eq!(sample_info().chunk_hashes_as_hash(), Ok(vec![[1u8; 32], [2u8; 32], [3u8; 32]]));
    let mut broken = sample_info();
    broken.chunk_hashes[1] = vec![2u8; 31];
    assert_eq!(broken.chunk_hashes_as_hash(), Err(StorageError::InvalidHash));
    let mut empty = sample_info();
    empty.chunk_hashes = vec![];
    assert_eq!(empty.chunk_hashes_as_hash(), Ok(vec![]));
}

#[test]
fn file_goes_on_the_wire_with_its_first_hash() {
    let meta = sample_info().to_proto();
    let info = sample_info();
    assert_eq!(
        meta,
        FileMetadata {
            file_id: "doc".to_string(),
            name: "doc.txt".to_string(),
            size: 2500,
            chunk_size: 1024,
            mime_type: "text/plain".to_string(),
            hash: vec![1u8; 32],
            tags: info.tags,
            created_at: 99,
            version: 3,
            category: "notes".to_string(),
            signature: vec![5, 5],
            checksums: info.checksums,
        }
    );
}

#[test]
fn absent_fields_travel_empty() {
    let mut bare = sample_info();
    bare.chunk_hashes = vec![];
    bare.category = None;
    bare.signature = None;
    let meta = bare.to_proto();
    assert_eq!(meta.hash, Vec::<u8>::new());
    assert_eq!(meta.category, "");
    assert_eq!(meta.signature, Vec::<u8>::new());
}

#[test]
fn file_read_from_the_wire_knows_one_hash() {
    let info = FileInfo::from_proto(sample_info().to_proto());
    let mut expected = sample_info();
    expected.chunk_hashes = vec![vec![1u8; 32]];
    assert_eq!(info, expected);
}

#[test]
fn empty_wire_fields_are_read_as_present() {
    let mut bare = sample_info();
    bare.chunk_hashes = vec![];
    bare.category = None;
    bare.signature = None;
    let info = FileInfo::from_proto(bare.to_proto());
    assert_eq!(info.chunk_hashes, vec![Vec::<u8>::new()]);
    assert_eq!(info.category, Some(String::new()));
    assert_eq!(info.signature, Some(vec![]));
}

#[test]
fn counter_counts_up_and_down() {
    let mut refs = RefCounter::new();
    let a = [1u8; 32];
    let b = [2u8; 32];
    assert!(!refs.contains(&a));
    refs.increment(&a);
    refs.increment(&b);
    refs.increment(&a);
    assert_eq!(refs.count(&a), 2);
    assert_eq!(refs.count(&b), 1);
    assert!(refs.contains(&b));
    assert!(!refs.decrement(&a));
    assert!(refs.decrement(&b));
    assert!(!refs.contains(&b));
    assert!(!refs.decrement(&b));
    assert!(refs.decrement(&a));
    assert_eq!(refs.count(&a), 0);
    assert!(!refs.decrement(&a[..16]));
}

#[test]
fn counter_tells_hashes_with_the_same_start_apart() {
    let mut refs = RefCounter::new();
    let mut a = [7u8; 32];
    let mut b = [7u8; 32];
    let mut c = [7u8; 32];
    a[4] = 1;
    b[31] = 2;
    c[0] = 3;
    refs.increment(&a);
    refs.increment(&b);
    refs.increment(&b);
    refs.increment(&c);
    assert_eq!(refs.count(&a), 1);
    assert_eq!(refs.count(&b), 2);
    assert_eq!(refs.count(&c), 1);
    assert_eq!(refs.count(&[7u8; 32]), 0);
    assert!(refs.decrement(&a));
    assert_eq!(refs.count(&a), 0);
    assert_eq!(refs.count(&b), 2);
    assert!(!refs.decrement(&b));
    assert!(refs.decrement(&b));
    assert!(!refs.contains(&b));
    assert!(refs.contains(&c));
    assert!(refs.decrement(&c));
    assert!(!refs.decrement(&c));
}

#[test]
fn counter_holds_many_hashes() {
    let mut refs = RefCounter::new();
    for round in 0..3u32 {
        for place in 0..500u32 {
            let hash = *blake3::hash(&place.to_le_bytes()).as_bytes();
            refs.increment(&hash);
            assert_eq!(refs.count(&hash), round + 1);
        }
    }
    for place in 0..500u32 {
        let hash = *blake3::hash(&place.to_le_bytes()).as_bytes();
        assert!(!refs.decrement(&hash));
        assert!(!refs.decrement(&hash));
        assert!(refs.decrement(&hash));
        assert!(!refs.contains(&hash));
    }
}
